//! What every device offers on top of its attributes: its address, the name
//! of its driver, the commands it takes, and sending one.

use vstd::prelude::*;
use vstd::string::*;
use crate::attribute::{is_list_of, is_value_of, Attribute, ReadOutcome, Write};
use crate::driver::{is_held, Driver};
use crate::error::{Ev3Error, Ev3Result};

verus! {

/// Whether `r` is the refusal of an operation on an attribute that the device
/// does not hold.
pub open spec fn is_missing<T>(r: Ev3Result<T>) -> bool {
    r matches Err(Ev3Error::InternalError { msg }) && msg@ == "Internal error in the attribute map"@
}

/// A device that supplies its attributes by name. Each operation names the
/// attribute it goes through; where the device does not hold that attribute,
/// the operation fails with an `InternalError`.
pub trait Device {
    /// Whether the device is in a state in which it can be asked.
    spec fn ready(&self) -> bool;

    /// The attribute that the device holds under `name`, if any.
    spec fn attribute(&self, name: Seq<char>) -> Option<Attribute>;

    /// The attribute that the device holds under `name`.
    fn get_attribute(&self, name: &str) -> (r: Ev3Result<Attribute>)
        requires
            self.ready(),
        ensures
            is_held(self.attribute(name@), r),
    ;

    /// The address of the device, from what reading the attribute `address`
    /// gave.
    fn get_address(&self, read: ReadOutcome) -> (r: Ev3Result<String>)
        requires
            self.ready(),
        ensures
            match self.attribute("address"@) {
                Some(_) => is_value_of(read, r),
                None => is_missing(r),
            },
    {
        match self.get_attribute("address") {
            Ok(attribute) => attribute.get::<String>(read),
            Err(e) => Err(e),
        }
    }

    /// The one write that sends `command` to the device: `command` as the
    /// new content of the attribute `command`.
    fn set_command(&self, command: &str) -> (r: Ev3Result<Write>)
        requires
            self.ready(),
        ensures
            match self.attribute("command"@) {
                Some(a) => r matches Ok(w) && w.fd == a.descriptor() && w.text@ == command@,
                None => is_missing(r),
            },
    {
        match self.get_attribute("command") {
            Ok(attribute) => Ok(attribute.set_str_slice(command)),
            Err(e) => Err(e),
        }
    }

    /// The commands that the device takes, from what reading the attribute
    /// `commands` gave.
    fn get_commands(&self, read: ReadOutcome) -> (r: Ev3Result<Vec<String>>)
        requires
            self.ready(),
        ensures
            match self.attribute("commands"@) {
                Some(_) => is_list_of(read, r),
                None => is_missing(r),
            },
    {
        match self.get_attribute("commands") {
            Ok(attribute) => attribute.get_vec(read),
            Err(e) => Err(e),
        }
    }

    /// The name of the driver of the device, from what reading the attribute
    /// `driver_name` gave.
    fn get_driver_name(&self, read: ReadOutcome) -> (r: Ev3Result<String>)
        requires
            self.ready(),
        ensures
            match self.attribute("driver_name"@) {
                Some(_) => is_value_of(read, r),
                None => is_missing(r),
            },
    {
        match self.get_attribute("driver_name") {
            Ok(attribute) => attribute.get::<String>(read),
            Err(e) => Err(e),
        }
    }
}

/// A driver is a device: it supplies the attributes that it has open.
impl Device for Driver {
    open spec fn ready(&self) -> bool {
        self.wf()
    }

    open spec fn attribute(&self, name: Seq<char>) -> Option<Attribute> {
        self.held(name)
    }

    fn get_attribute(&self, name: &str) -> (r: Ev3Result<Attribute>) {
        Driver::get_attribute(self, name)
    }
}

} // verus!
