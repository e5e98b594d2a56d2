//! One attribute of a device: the handle of its open file, and the rules by
//! which the file's content becomes a value and a value the file's content.

use vstd::prelude::*;
use vstd::string::*;
use vstd::utf8::{decode_utf8, encode_utf8, valid_utf8};
use crate::error::{Ev3Error, Ev3Result};
use crate::number::{format_int, lemma_format_ends_in_digit};
use crate::text::{lemma_trim_end_fixed, split_words, trim, trim_end, views, words};
use crate::value::AttributeValue;

verus! {

/// The handle of one open attribute file. Copies of an `Attribute` stand for
/// the same open file: the file is opened once, by whoever makes the first.
#[derive(Clone, Copy, Debug, PartialEq, Eq)]
pub struct Attribute {
    fd: i32,
}

/// A write that the caller is to perform: `text` replaces the whole content
/// of the file with descriptor `fd`.
#[derive(Debug)]
pub struct Write {
    pub fd: i32,
    pub text: String,
}

/// The message with which `String::from_utf8` refuses `bytes` that are not
/// valid UTF-8: the text of its error, which tells where the bytes go wrong.
pub uninterp spec fn utf8_failure(bytes: Seq<u8>) -> Seq<char>;

/// `String::from_utf8`: the result is `Ok` exactly for bytes that are valid
/// UTF-8, and then holds the characters that the bytes encode; for other
/// bytes it is the text of the error, which has the name `utf8_failure`.
#[verifier::external_body]
fn text_from_utf8(bytes: Vec<u8>) -> (r: Result<String, String>)
    ensures
        r is Ok <==> valid_utf8(bytes@),
        r matches Ok(s) ==> s@ == decode_utf8(bytes@),
        r matches Err(message) ==> message@ == utf8_failure(bytes@),
{
    match String::from_utf8(bytes) {
        Ok(s) => Ok(s),
        Err(e) => Err(format!("{}", e)),
    }
}

/// Whether `r` is what decoded content gives as text: the text without
/// trailing whitespace, or an `Encoding` error with the decoder's message.
pub open spec fn is_trimmed(decoded: Result<String, String>, r: Ev3Result<String>) -> bool {
    match decoded {
        Ok(raw) => r matches Ok(s) && s@ == trim_end(raw@),
        Err(message) => r == Ev3Result::<String>::Err(Ev3Error::Encoding { msg: message }),
    }
}

/// Whether `r` is what decoded content gives as a list of words.
pub open spec fn is_split(decoded: Result<String, String>, r: Ev3Result<Vec<String>>) -> bool {
    match decoded {
        Ok(raw) => r matches Ok(list) && views(list@) == words(raw@),
        Err(message) => r == Ev3Result::<Vec<String>>::Err(Ev3Error::Encoding { msg: message }),
    }
}

/// The text of an attribute, from its decoded content or the message with
/// which decoding failed.
pub fn text_of_decoded(decoded: Result<String, String>) -> (r: Ev3Result<String>)
    ensures
        is_trimmed(decoded, r),
{
    match decoded {
        Ok(raw) => Ok(trim(raw.as_str())),
        Err(message) => Err(Ev3Error::Encoding { msg: message }),
    }
}

/// The words of an attribute, from its decoded content or the message with
/// which decoding failed.
pub fn list_of_decoded(decoded: Result<String, String>) -> (r: Ev3Result<Vec<String>>)
    ensures
        is_split(decoded, r),
{
    match decoded {
        Ok(raw) => Ok(split_words(raw.as_str())),
        Err(message) => Err(Ev3Error::Encoding { msg: message }),
    }
}

/// The value of an attribute, from its text: text that stands for no value
/// of type `T` gives a `Parse` error with the message that tells why.
pub fn value_of_text<T: AttributeValue>(text: &str) -> (r: Ev3Result<T>)
    ensures
        is_parsed(text@, r),
{
    match T::from_text(text) {
        Ok(v) => Ok(v),
        Err(message) => Err(Ev3Error::Parse { msg: message }),
    }
}

/// Whether `r` is what `text` gives as a value of type `T`.
pub open spec fn is_parsed<T: AttributeValue>(text: Seq<char>, r: Ev3Result<T>) -> bool {
    if T::readable(text) {
        r matches Ok(v) && T::reads_as(text, &v)
    } else {
        r matches Err(Ev3Error::Parse { msg }) && msg@ == T::failure(text)
    }
}

/// What reading an attribute file gave: its bytes, or the message of the
/// failure.
pub type ReadOutcome = Result<Vec<u8>, String>;

/// Whether `r` is what file content `read` gives as text: the content
/// decoded and without trailing whitespace, or the failure of the read or of
/// the decoding.
pub open spec fn is_text_of(read: ReadOutcome, r: Ev3Result<String>) -> bool {
    match read {
        Err(cause) => r == Ev3Result::<String>::Err(Ev3Error::Io { msg: cause }),
        Ok(bytes) => if valid_utf8(bytes@) {
            r matches Ok(s) && s@ == trim_end(decode_utf8(bytes@))
        } else {
            r matches Err(Ev3Error::Encoding { msg }) && msg@ == utf8_failure(bytes@)
        },
    }
}

/// Whether `r` is what file content `read` gives as a value of type `T`.
pub open spec fn is_value_of<T: AttributeValue>(read: ReadOutcome, r: Ev3Result<T>) -> bool {
    match read {
        Err(cause) => r == Ev3Result::<T>::Err(Ev3Error::Io { msg: cause }),
        Ok(bytes) => if !valid_utf8(bytes@) {
            r matches Err(Ev3Error::Encoding { msg }) && msg@ == utf8_failure(bytes@)
        } else {
            is_parsed(trim_end(decode_utf8(bytes@)), r)
        },
    }
}

/// Whether `r` is what file content `read` gives as a list of words.
pub open spec fn is_list_of(read: ReadOutcome, r: Ev3Result<Vec<String>>) -> bool {
    match read {
        Err(cause) => r == Ev3Result::<Vec<String>>::Err(Ev3Error::Io { msg: cause }),
        Ok(bytes) => if valid_utf8(bytes@) {
            r matches Ok(list) && views(list@) == words(decode_utf8(bytes@))
        } else {
            r matches Err(Ev3Error::Encoding { msg }) && msg@ == utf8_failure(bytes@)
        },
    }
}

/// Whether `r` reports the outcome `done` of a write.
pub open spec fn is_report_of(done: Result<(), String>, r: Ev3Result<()>) -> bool {
    match done {
        Ok(_) => r is Ok,
        Err(cause) => r == Ev3Result::<()>::Err(Ev3Error::Io { msg: cause }),
    }
}

impl Attribute {
    /// The descriptor of the open file.
    pub closed spec fn descriptor(&self) -> i32 {
        self.fd
    }

    /// Attributes with one descriptor are one attribute.
    pub proof fn lemma_descriptor_decides(a: Attribute, b: Attribute)
        requires
            a.descriptor() == b.descriptor(),
        ensures
            a == b,
    {
    }

    /// Makes the attribute from the outcome of opening its file for reading
    /// and writing: the descriptor, or the message of the failure, which
    /// becomes an `Io` error.
    pub fn new(opened: Result<i32, String>) -> (r: Ev3Result<Attribute>)
        ensures
            match opened {
                Ok(fd) => r matches Ok(a) && a.descriptor() == fd,
                Err(cause) => r == Ev3Result::<Attribute>::Err(Ev3Error::Io { msg: cause }),
            },
    {
        match opened {
            Ok(fd) => Ok(Attribute { fd }),
            Err(cause) => Err(Ev3Error::Io { msg: cause }),
        }
    }

    /// The content of the file as text, without trailing whitespace.
    pub fn get_str(&self, read: ReadOutcome) -> (r: Ev3Result<String>)
        ensures
            is_text_of(read, r),
    {
        match read {
            Err(cause) => Err(Ev3Error::Io { msg: cause }),
            Ok(bytes) => text_of_decoded(text_from_utf8(bytes)),
        }
    }

    /// The write that sets the attribute to `value`.
    pub fn set_str(&self, value: &str) -> (w: Write)
        ensures
            w.fd == self.descriptor(),
            w.text@ == value@,
    {
        Write { fd: self.fd, text: value.to_owned() }
    }

    /// The content of the file as a value of type `T`. Text that stands for
    /// no such value gives a `Parse` error with the message that tells why.
    pub fn get<T: AttributeValue>(&self, read: ReadOutcome) -> (r: Ev3Result<T>)
        ensures
            is_value_of(read, r),
    {
        match self.get_str(read) {
            Err(e) => Err(e),
            Ok(text) => value_of_text(text.as_str()),
        }
    }

    /// The write that sets the attribute to `value`.
    pub fn set<T: AttributeValue>(&self, value: T) -> (w: Write)
        ensures
            w.fd == self.descriptor(),
            w.text@ == value.text_of(),
    {
        Write { fd: self.fd, text: value.to_text() }
    }

    /// The write that sets the attribute to `value`.
    #[inline]
    pub fn set_str_slice(&self, value: &str) -> (w: Write)
        ensures
            w.fd == self.descriptor(),
            w.text@ == value@,
    {
        self.set_str(value)
    }

    /// The content of the file as the list of its words.
    pub fn get_vec(&self, read: ReadOutcome) -> (r: Ev3Result<Vec<String>>)
        ensures
            is_list_of(read, r),
    {
        match read {
            Err(cause) => Err(Ev3Error::Io { msg: cause }),
            Ok(bytes) => list_of_decoded(text_from_utf8(bytes)),
        }
    }

    /// The result of a `set`, from the outcome of the write it asked for.
    pub fn written(done: Result<(), String>) -> (r: Ev3Result<()>)
        ensures
            is_report_of(done, r),
    {
        match done {
            Ok(_) => Ok(()),
            Err(cause) => Err(Ev3Error::Io { msg: cause }),
        }
    }

    /// The descriptor of the open file, for waiting on it. The descriptor
    /// stays the attribute's: whoever gets it here does not close it.
    pub fn get_raw_fd(&self) -> (fd: i32)
        ensures
            fd == self.descriptor(),
    {
        self.fd
    }
}

/// A value that is set and then read back, with nothing else writing in
/// between, is read as it was set, provided that its text neither is empty
/// nor ends in whitespace: `w` is the write that `set` asks for, `content`
/// the bytes that the file then holds, `r` what `get` makes of them.
pub proof fn law_set_then_get<T: AttributeValue>(value: T, w: Write, content: Vec<u8>, r: Ev3Result<T>)
    requires
        w.text@ == value.text_of(),
        content@ == encode_utf8(w.text@),
        trim_end(value.text_of()) == value.text_of(),
        is_value_of(Ok(content), r),
    ensures
        r matches Ok(v) && T::reads_as(value.text_of(), &v),
{
    broadcast use vstd::utf8::encode_utf8_valid_utf8, vstd::utf8::encode_utf8_decode_utf8;
    value.lemma_own_text();
}

/// A 64-bit integer that is set and then read back, with nothing else writing in
/// between, is read as it was set.
pub proof fn law_set_then_get_integer(value: i64, w: Write, content: Vec<u8>, r: Ev3Result<i64>)
    requires
        w.text@ == value.text_of(),
        content@ == encode_utf8(w.text@),
        is_value_of(Ok(content), r),
    ensures
        r == Ev3Result::<i64>::Ok(value),
{
    lemma_format_ends_in_digit(value as int);
    lemma_trim_end_fixed(format_int(value as int));
    value.lemma_own_text();
    law_set_then_get(value, w, content, r);
}

} // verus!
