//! The types of value that an attribute can hold, each with the text that
//! stands for it in the attribute file.

use vstd::prelude::*;
use vstd::string::*;
use crate::number::{
    describe, fault_text, format_int, lemma_format_then_read, read_decimal, read_int, to_decimal,
    Fault,
};

verus! {

/// A type of value that is written to and read from an attribute as text.
pub trait AttributeValue: Sized {
    /// The text that is written for the value.
    spec fn text_of(&self) -> Seq<char>;

    /// Whether `text` stands for a value of the type.
    spec fn readable(text: Seq<char>) -> bool;

    /// Whether `text` stands for `value`.
    spec fn reads_as(text: Seq<char>, value: &Self) -> bool;

    /// The message that tells why `text` stands for no value of the type.
    spec fn failure(text: Seq<char>) -> Seq<char>;

    /// The text written for a value stands for that value.
    proof fn lemma_own_text(&self)
        ensures
            Self::readable(self.text_of()),
            Self::reads_as(self.text_of(), self),
    ;

    /// Writes the value as text.
    fn to_text(&self) -> (r: String)
        ensures
            r@ == self.text_of(),
    ;

    /// Reads a value from `text`, or tells why `text` stands for none.
    fn from_text(text: &str) -> (r: Result<Self, String>)
        ensures
            r is Ok <==> Self::readable(text@),
            r matches Ok(v) ==> Self::reads_as(text@, &v),
            r matches Err(message) ==> message@ == Self::failure(text@),
    ;
}

/// The message for text that is no integer of a range, and no message for
/// text that is one.
pub open spec fn integer_failure(read: Result<int, Fault>) -> Seq<char> {
    match read {
        Ok(_) => Seq::empty(),
        Err(fault) => fault_text(fault),
    }
}

/// A signed integer is written in decimal notation and read from it.
impl AttributeValue for i8 {
    open spec fn text_of(&self) -> Seq<char> {
        format_int(*self as int)
    }

    open spec fn readable(text: Seq<char>) -> bool {
        read_int(text, true, i8::MIN as int, i8::MAX as int) is Ok
    }

    open spec fn reads_as(text: Seq<char>, value: &Self) -> bool {
        read_int(text, true, i8::MIN as int, i8::MAX as int) == Ok::<int, Fault>(*value as int)
    }

    open spec fn failure(text: Seq<char>) -> Seq<char> {
        integer_failure(read_int(text, true, i8::MIN as int, i8::MAX as int))
    }

    proof fn lemma_own_text(&self) {
        lemma_format_then_read(*self as int, true, i8::MIN as int, i8::MAX as int);
    }

    fn to_text(&self) -> (r: String) {
        to_decimal(*self as i128)
    }

    fn from_text(text: &str) -> (r: Result<Self, String>) {
        match read_decimal(text, true, i8::MIN as i128, i8::MAX as i128) {
            Ok(v) => Ok(v as i8),
            Err(fault) => Err(describe(fault)),
        }
    }
}

/// A signed integer is written in decimal notation and read from it.
impl AttributeValue for i16 {
    open spec fn text_of(&self) -> Seq<char> {
        format_int(*self as int)
    }

    open spec fn readable(text: Seq<char>) -> bool {
        read_int(text, true, i16::MIN as int, i16::MAX as int) is Ok
    }

    open spec fn reads_as(text: Seq<char>, value: &Self) -> bool {
        read_int(text, true, i16::MIN as int, i16::MAX as int) == Ok::<int, Fault>(*value as int)
    }

    open spec fn failure(text: Seq<char>) -> Seq<char> {
        integer_failure(read_int(text, true, i16::MIN as int, i16::MAX as int))
    }

    proof fn lemma_own_text(&self) {
        lemma_format_then_read(*self as int, true, i16::MIN as int, i16::MAX as int);
    }

    fn to_text(&self) -> (r: String) {
        to_decimal(*self as i128)
    }

    fn from_text(text: &str) -> (r: Result<Self, String>) {
        match read_decimal(text, true, i16::MIN as i128, i16::MAX as i128) {
            Ok(v) => Ok(v as i16),
            Err(fault) => Err(describe(fault)),
        }
    }
}

/// A signed integer is written in decimal notation and read from it.
impl AttributeValue for i32 {
    open spec fn text_of(&self) -> Seq<char> {
        format_int(*self as int)
    }

    open spec fn readable(text: Seq<char>) -> bool {
        read_int(text, true, i32::MIN as int, i32::MAX as int) is Ok
    }

    open spec fn reads_as(text: Seq<char>, value: &Self) -> bool {
        read_int(text, true, i32::MIN as int, i32::MAX as int) == Ok::<int, Fault>(*value as int)
    }

    open spec fn failure(text: Seq<char>) -> Seq<char> {
        integer_failure(read_int(text, true, i32::MIN as int, i32::MAX as int))
    }

    proof fn lemma_own_text(&self) {
        lemma_format_then_read(*self as int, true, i32::MIN as int, i32::MAX as int);
    }

    fn to_text(&self) -> (r: String) {
        to_decimal(*self as i128)
    }

    fn from_text(text: &str) -> (r: Result<Self, String>) {
        match read_decimal(text, true, i32::MIN as i128, i32::MAX as i128) {
            Ok(v) => Ok(v as i32),
            Err(fault) => Err(describe(fault)),
        }
    }
}

/// A signed integer is written in decimal notation and read from it.
impl AttributeValue for i64 {
    open spec fn text_of(&self) -> Seq<char> {
        format_int(*self as int)
    }

    open spec fn readable(text: Seq<char>) -> bool {
        read_int(text, true, i64::MIN as int, i64::MAX as int) is Ok
    }

    open spec fn reads_as(text: Seq<char>, value: &Self) -> bool {
        read_int(text, true, i64::MIN as int, i64::MAX as int) == Ok::<int, Fault>(*value as int)
    }

    open spec fn failure(text: Seq<char>) -> Seq<char> {
        integer_failure(read_int(text, true, i64::MIN as int, i64::MAX as int))
    }

    proof fn lemma_own_text(&self) {
        lemma_format_then_read(*self as int, true, i64::MIN as int, i64::MAX as int);
    }

    fn to_text(&self) -> (r: String) {
        to_decimal(*self as i128)
    }

    fn from_text(text: &str) -> (r: Result<Self, String>) {
        match read_decimal(text, true, i64::MIN as i128, i64::MAX as i128) {
            Ok(v) => Ok(v as i64),
            Err(fault) => Err(describe(fault)),
        }
    }
}

/// A signed integer is written in decimal notation and read from it.
impl AttributeValue for isize {
    open spec fn text_of(&self) -> Seq<char> {
        format_int(*self as int)
    }

    open spec fn readable(text: Seq<char>) -> bool {
        read_int(text, true, isize::MIN as int, isize::MAX as int) is Ok
    }

    open spec fn reads_as(text: Seq<char>, value: &Self) -> bool {
        read_int(text, true, isize::MIN as int, isize::MAX as int) == Ok::<int, Fault>(*value as int)
    }

    open spec fn failure(text: Seq<char>) -> Seq<char> {
        integer_failure(read_int(text, true, isize::MIN as int, isize::MAX as int))
    }

    proof fn lemma_own_text(&self) {
        lemma_format_then_read(*self as int, true, isize::MIN as int, isize::MAX as int);
    }

    fn to_text(&self) -> (r: String) {
        to_decimal(*self as i128)
    }

    fn from_text(text: &str) -> (r: Result<Self, String>) {
        match read_decimal(text, true, isize::MIN as i128, isize::MAX as i128) {
            Ok(v) => Ok(v as isize),
            Err(fault) => Err(describe(fault)),
        }
    }
}

/// An unsigned integer is written in decimal notation and read from it; a minus sign is no part of its notation.
impl AttributeValue for u8 {
    open spec fn text_of(&self) -> Seq<char> {
        format_int(*self as int)
    }

    open spec fn readable(text: Seq<char>) -> bool {
        read_int(text, false, u8::MIN as int, u8::MAX as int) is Ok
    }

    open spec fn reads_as(text: Seq<char>, value: &Self) -> bool {
        read_int(text, false, u8::MIN as int, u8::MAX as int) == Ok::<int, Fault>(*value as int)
    }

    open spec fn failure(text: Seq<char>) -> Seq<char> {
        integer_failure(read_int(text, false, u8::MIN as int, u8::MAX as int))
    }

    proof fn lemma_own_text(&self) {
        lemma_format_then_read(*self as int, false, u8::MIN as int, u8::MAX as int);
    }

    fn to_text(&self) -> (r: String) {
        to_decimal(*self as i128)
    }

    fn from_text(text: &str) -> (r: Result<Self, String>) {
        match read_decimal(text, false, u8::MIN as i128, u8::MAX as i128) {
            Ok(v) => Ok(v as u8),
            Err(fault) => Err(describe(fault)),
        }
    }
}

/// An unsigned integer is written in decimal notation and read from it; a minus sign is no part of its notation.
impl AttributeValue for u16 {
    open spec fn text_of(&self) -> Seq<char> {
        format_int(*self as int)
    }

    open spec fn readable(text: Seq<char>) -> bool {
        read_int(text, false, u16::MIN as int, u16::MAX as int) is Ok
    }

    open spec fn reads_as(text: Seq<char>, value: &Self) -> bool {
        read_int(text, false, u16::MIN as int, u16::MAX as int) == Ok::<int, Fault>(*value as int)
    }

    open spec fn failure(text: Seq<char>) -> Seq<char> {
        integer_failure(read_int(text, false, u16::MIN as int, u16::MAX as int))
    }

    proof fn lemma_own_text(&self) {
        lemma_format_then_read(*self as int, false, u16::MIN as int, u16::MAX as int);
    }

    fn to_text(&self) -> (r: String) {
        to_decimal(*self as i128)
    }

    fn from_text(text: &str) -> (r: Result<Self, String>) {
        match read_decimal(text, false, u16::MIN as i128, u16::MAX as i128) {
            Ok(v) => Ok(v as u16),
            Err(fault) => Err(describe(fault)),
        }
    }
}

/// An unsigned integer is written in decimal notation and read from it; a minus sign is no part of its notation.
impl AttributeValue for u32 {
    open spec fn text_of(&self) -> Seq<char> {
        format_int(*self as int)
    }

    open spec fn readable(text: Seq<char>) -> bool {
        read_int(text, false, u32::MIN as int, u32::MAX as int) is Ok
    }

    open spec fn reads_as(text: Seq<char>, value: &Self) -> bool {
        read_int(text, false, u32::MIN as int, u32::MAX as int) == Ok::<int, Fault>(*value as int)
    }

    open spec fn failure(text: Seq<char>) -> Seq<char> {
        integer_failure(read_int(text, false, u32::MIN as int, u32::MAX as int))
    }

    proof fn lemma_own_text(&self) {
        lemma_format_then_read(*self as int, false, u32::MIN as int, u32::MAX as int);
    }

    fn to_text(&self) -> (r: String) {
        to_decimal(*self as i128)
    }

    fn from_text(text: &str) -> (r: Result<Self, String>) {
        match read_decimal(text, false, u32::MIN as i128, u32::MAX as i128) {
            Ok(v) => Ok(v as u32),
            Err(fault) => Err(describe(fault)),
        }
    }
}

/// An unsigned integer is written in decimal notation and read from it; a minus sign is no part of its notation.
impl AttributeValue for u64 {
    open spec fn text_of(&self) -> Seq<char> {
        format_int(*self as int)
    }

    open spec fn readable(text: Seq<char>) -> bool {
        read_int(text, false, u64::MIN as int, u64::MAX as int) is Ok
    }

    open spec fn reads_as(text: Seq<char>, value: &Self) -> bool {
        read_int(text, false, u64::MIN as int, u64::MAX as int) == Ok::<int, Fault>(*value as int)
    }

    open spec fn failure(text: Seq<char>) -> Seq<char> {
        integer_failure(read_int(text, false, u64::MIN as int, u64::MAX as int))
    }

    proof fn lemma_own_text(&self) {
        lemma_format_then_read(*self as int, false, u64::MIN as int, u64::MAX as int);
    }

    fn to_text(&self) -> (r: String) {
        to_decimal(*self as i128)
    }

    fn from_text(text: &str) -> (r: Result<Self, String>) {
        match read_decimal(text, false, u64::MIN as i128, u64::MAX as i128) {
            Ok(v) => Ok(v as u64),
            Err(fault) => Err(describe(fault)),
        }
    }
}

/// An unsigned integer is written in decimal notation and read from it; a minus sign is no part of its notation.
impl AttributeValue for usize {
    open spec fn text_of(&self) -> Seq<char> {
        format_int(*self as int)
    }

    open spec fn readable(text: Seq<char>) -> bool {
        read_int(text, false, usize::MIN as int, usize::MAX as int) is Ok
    }

    open spec fn reads_as(text: Seq<char>, value: &Self) -> bool {
        read_int(text, false, usize::MIN as int, usize::MAX as int) == Ok::<int, Fault>(*value as int)
    }

    open spec fn failure(text: Seq<char>) -> Seq<char> {
        integer_failure(read_int(text, false, usize::MIN as int, usize::MAX as int))
    }

    proof fn lemma_own_text(&self) {
        lemma_format_then_read(*self as int, false, usize::MIN as int, usize::MAX as int);
    }

    fn to_text(&self) -> (r: String) {
        to_decimal(*self as i128)
    }

    fn from_text(text: &str) -> (r: Result<Self, String>) {
        match read_decimal(text, false, usize::MIN as i128, usize::MAX as i128) {
            Ok(v) => Ok(v as usize),
            Err(fault) => Err(describe(fault)),
        }
    }
}

/// A string is written as it is, and any text reads as itself.
impl AttributeValue for String {
    open spec fn text_of(&self) -> Seq<char> {
        self@
    }

    open spec fn readable(text: Seq<char>) -> bool {
        true
    }

    open spec fn reads_as(text: Seq<char>, value: &Self) -> bool {
        value@ == text
    }

    open spec fn failure(text: Seq<char>) -> Seq<char> {
        Seq::empty()
    }

    proof fn lemma_own_text(&self) {
    }

    fn to_text(&self) -> (r: String) {
        self.clone()
    }

    fn from_text(text: &str) -> (r: Result<Self, String>) {
        Ok(text.to_owned())
    }
}

} // verus!
