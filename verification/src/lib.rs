//! Typed access to the attributes of a hardware device that a kernel driver
//! exposes as small text files, one file per attribute.
//!
//! The library holds the rules: how raw file content becomes a typed value,
//! how a value becomes the text of a whole-file write, which handle belongs to
//! which attribute name, and which failure is reported when. It performs no
//! I/O. The caller opens, reads and writes the files and hands the outcome of
//! each such step to the library as a plain value.

pub mod error;
pub mod text;
pub mod number;
pub mod value;
pub mod attribute;
pub mod driver;
pub mod device;

pub use attribute::{Attribute, Write};
pub use device::Device;
pub use driver::{Driver, Step};
pub use error::{Ev3Error, Ev3Result};
pub use value::AttributeValue;
