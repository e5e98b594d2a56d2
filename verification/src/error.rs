//! The failures that attribute access can report.

use vstd::prelude::*;

verus! {

/// Why an operation on an attribute failed.
#[derive(Debug)]
pub enum Ev3Error {
    /// Opening, reading or writing the attribute file failed.
    Io { msg: String },
    /// The file content is not valid UTF-8.
    Encoding { msg: String },
    /// The text of the file is not a value of the requested type.
    Parse { msg: String },
    /// The attribute table of a driver holds no handle where one must be.
    InternalError { msg: String },
}

pub type Ev3Result<T> = Result<T, Ev3Error>;

impl Ev3Error {
    /// The diagnostic text that the error carries.
    pub open spec fn msg_spec(self) -> Seq<char> {
        match self {
            Ev3Error::Io { msg } => msg@,
            Ev3Error::Encoding { msg } => msg@,
            Ev3Error::Parse { msg } => msg@,
            Ev3Error::InternalError { msg } => msg@,
        }
    }

    /// The diagnostic text that the error carries.
    pub fn message(&self) -> (r: String)
        ensures
            r@ == self.msg_spec(),
    {
        match self {
            Ev3Error::Io { msg } => msg.clone(),
            Ev3Error::Encoding { msg } => msg.clone(),
            Ev3Error::Parse { msg } => msg.clone(),
            Ev3Error::InternalError { msg } => msg.clone(),
        }
    }

    /// Whether the error reports a failed open, read or write.
    pub fn is_io(&self) -> (r: bool)
        ensures
            r == (self is Io),
    {
        match self {
            Ev3Error::Io { .. } => true,
            _ => false,
        }
    }

    /// Whether the error reports a fault in the program rather than a failure
    /// of the device or of its files.
    pub fn is_fatal(&self) -> (r: bool)
        ensures
            r == (self is InternalError),
    {
        match self {
            Ev3Error::InternalError { .. } => true,
            _ => false,
        }
    }
}

} // verus!
