//! The driver of one device: who the device is, and the attributes that it
//! has open, each under its name and each opened once.

use vstd::prelude::*;
use vstd::string::*;
use crate::attribute::Attribute;
use crate::error::{Ev3Error, Ev3Result};

verus! {

/// Whether no name stands twice in `entries`.
spec fn distinct(entries: Seq<(String, Attribute)>) -> bool {
    forall|i: int, j: int|
        0 <= i < j < entries.len() ==> (#[trigger] entries[i]).0@ != (#[trigger] entries[j]).0@
}

/// The attributes of `entries`, each under its name.
spec fn table(entries: Seq<(String, Attribute)>) -> Map<Seq<char>, Attribute>
    decreases entries.len(),
{
    if entries.len() == 0 {
        Map::empty()
    } else {
        table(entries.drop_last()).insert(entries.last().0@, entries.last().1)
    }
}

/// With distinct names, the table holds each entry under its name, nothing
/// else, and so as many attributes as there are entries.
proof fn lemma_table(entries: Seq<(String, Attribute)>)
    requires
        distinct(entries),
    ensures
        table(entries).dom().finite(),
        table(entries).dom().len() == entries.len(),
        forall|i: int|
            0 <= i < entries.len() ==> table(entries).dom().contains((#[trigger] entries[i]).0@)
                && table(entries)[entries[i].0@] == entries[i].1,
        forall|k: Seq<char>| #[trigger]
            table(entries).dom().contains(k) ==> exists|i: int|
                0 <= i < entries.len() && (#[trigger] entries[i]).0@ == k,
    decreases entries.len(),
{
    if entries.len() > 0 {
        let front = entries.drop_last();
        let last = entries.last();
        assert forall|i: int, j: int| 0 <= i < j < front.len() implies (#[trigger] front[i]).0@ != (
        #[trigger] front[j]).0@ by {
            assert(front[i] == entries[i] && front[j] == entries[j]);
        }
        lemma_table(front);
        if table(front).dom().contains(last.0@) {
            let i = choose|i: int| 0 <= i < front.len() && (#[trigger] front[i]).0@ == last.0@;
            assert(front[i] == entries[i]);
            assert(entries[entries.len() - 1] == last);
            assert(false);
        }
        assert forall|i: int| 0 <= i < entries.len() implies table(entries).dom().contains(
            (#[trigger] entries[i]).0@,
        ) && table(entries)[entries[i].0@] == entries[i].1 by {
            if i < front.len() {
                assert(front[i] == entries[i]);
            }
        }
        assert forall|k: Seq<char>| #[trigger] table(entries).dom().contains(k) implies exists|
            i: int,
        |
            0 <= i < entries.len() && (#[trigger] entries[i]).0@ == k by {
            if k == last.0@ {
                assert(entries[entries.len() - 1].0@ == k);
            } else {
                let i = choose|i: int| 0 <= i < front.len() && (#[trigger] front[i]).0@ == k;
                assert(entries[i].0@ == k);
            }
        }
    }
}

/// The driver of one device.
#[derive(Clone)]
pub struct Driver {
    class_name: String,
    name: String,
    entries: Vec<(String, Attribute)>,
}

/// What is to be done for a request for an attribute: nothing where the
/// driver holds it, else the one open of its file, which is told by the
/// class of the device, the name of the device and the name of the attribute.
#[derive(Debug)]
pub enum Step {
    Held(Attribute),
    Open { class_name: String, name: String, attribute_name: String },
}

/// Whether `r` answers a request for the attribute that is `held` under a
/// name: the attribute, or an `InternalError` where none is held.
pub open spec fn is_held(held: Option<Attribute>, r: Ev3Result<Attribute>) -> bool {
    match held {
        Some(a) => r == Ev3Result::<Attribute>::Ok(a),
        None => r matches Err(Ev3Error::InternalError { msg }) && msg@
            == "Internal error in the attribute map"@,
    }
}

impl Driver {
    /// Whether the driver holds at most one attribute under each name. Every
    /// driver that `new` made is well formed, and stays so.
    pub closed spec fn wf(&self) -> bool {
        distinct(self.entries@)
    }

    /// The name of the class of devices that the device belongs to.
    pub closed spec fn class_name_spec(&self) -> Seq<char> {
        self.class_name@
    }

    /// The name of the device within its class.
    pub closed spec fn name_spec(&self) -> Seq<char> {
        self.name@
    }

    /// The attributes that the driver has open, each under its name.
    pub closed spec fn attributes(&self) -> Map<Seq<char>, Attribute> {
        table(self.entries@)
    }

    /// How many files were opened for the driver.
    pub closed spec fn opened(&self) -> nat {
        self.entries@.len()
    }

    /// The attribute that the driver has open under `name`, if any.
    pub open spec fn held(&self, name: Seq<char>) -> Option<Attribute> {
        if self.attributes().dom().contains(name) {
            Some(self.attributes()[name])
        } else {
            None
        }
    }

    /// The driver of the device `name` of class `class_name`, with no
    /// attribute open.
    pub fn new(class_name: &str, name: &str) -> (r: Driver)
        ensures
            r.wf(),
            r.class_name_spec() == class_name@,
            r.name_spec() == name@,
            r.attributes() == Map::<Seq<char>, Attribute>::empty(),
            r.opened() == 0,
    {
        Driver { class_name: class_name.to_owned(), name: name.to_owned(), entries: Vec::new() }
    }

    /// The name of the class of devices that the device belongs to.
    pub fn class_name(&self) -> (r: String)
        ensures
            r@ == self.class_name_spec(),
    {
        self.class_name.clone()
    }

    /// The name of the device within its class.
    pub fn name(&self) -> (r: String)
        ensures
            r@ == self.name_spec(),
    {
        self.name.clone()
    }

    /// Where in the entries `name` stands.
    #[verifier::loop_isolation(false)]
    fn position(&self, name: &str) -> (r: Option<usize>)
        requires
            self.wf(),
        ensures
            match r {
                Some(i) => i < self.entries@.len() && self.entries@[i as int].0@ == name@
                    && self.held(name@) == Some(self.entries@[i as int].1),
                None => self.held(name@) is None,
            },
    {
        proof {
            lemma_table(self.entries@);
        }
        let key: String = name.to_owned();
        let mut i: usize = 0;
        while i < self.entries.len()
            invariant
                key@ == name@,
                i <= self.entries@.len(),
                forall|j: int| 0 <= j < i ==> (#[trigger] self.entries@[j]).0@ != name@,
            decreases self.entries@.len() - i,
        {
            if self.entries[i].0 == key {
                return Some(i);
            }
            i = i + 1;
        }
        None
    }

    /// How many attributes the driver has open: one for each file that was
    /// opened for it.
    pub fn len(&self) -> (r: usize)
        requires
            self.wf(),
        ensures
            r == self.opened(),
            r == self.attributes().dom().len(),
    {
        proof {
            lemma_table(self.entries@);
        }
        self.entries.len()
    }

    /// Whether the driver has an attribute open under `name`. Where it has,
    /// no file is to be opened for that name.
    pub fn is_open(&self, name: &str) -> (r: bool)
        requires
            self.wf(),
        ensures
            r == self.attributes().dom().contains(name@),
    {
        self.position(name).is_some()
    }

    /// The step that a request for the attribute `name` takes: the attribute
    /// where the driver holds it, else the file to open, whose outcome
    /// `open_attribute` takes.
    pub fn request(&self, name: &str) -> (s: Step)
        requires
            self.wf(),
        ensures
            match self.held(name@) {
                Some(a) => s == Step::Held(a),
                None => s matches Step::Open { class_name, name: device, attribute_name }
                    && class_name@ == self.class_name_spec() && device@ == self.name_spec()
                    && attribute_name@ == name@,
            },
    {
        match self.position(name) {
            Some(i) => Step::Held(self.entries[i].1),
            None => Step::Open {
                class_name: self.class_name.clone(),
                name: self.name.clone(),
                attribute_name: name.to_owned(),
            },
        }
    }

    /// The attribute that the driver has open under `name`. Where it has
    /// none, the error is an `InternalError`: the caller asked for an
    /// attribute without having opened it.
    pub fn get_attribute(&self, name: &str) -> (r: Ev3Result<Attribute>)
        requires
            self.wf(),
        ensures
            is_held(self.held(name@), r),
    {
        match self.position(name) {
            Some(i) => Ok(self.entries[i].1),
            None => Err(
                Ev3Error::InternalError { msg: "Internal error in the attribute map".to_owned() },
            ),
        }
    }

    /// Takes the outcome `opened` of opening the file of the attribute
    /// `name`, which the driver must not have open yet. A descriptor becomes
    /// the attribute held under `name`; a failure is reported as an `Io`
    /// error and changes nothing. Where the driver has the attribute open
    /// already, a second handle would stand for one file: the driver is left
    /// as it is and the error is an `InternalError`.
    pub fn open_attribute(&mut self, name: &str, opened: Result<i32, String>) -> (r: Ev3Result<
        Attribute,
    >)
        requires
            old(self).wf(),
        ensures
            final(self).wf(),
            final(self).class_name_spec() == old(self).class_name_spec(),
            final(self).name_spec() == old(self).name_spec(),
            is_opening(old(self).attributes(), name@, opened, final(self).attributes(), r),
            final(self).opened() == old(self).opened() + if r is Ok {
                1nat
            } else {
                0nat
            },
    {
        if self.position(name).is_some() {
            return Err(
                Ev3Error::InternalError { msg: "Internal error in the attribute map".to_owned() },
            );
        }
        match Attribute::new(opened) {
            Err(e) => Err(e),
            Ok(attribute) => {
                let ghost before = self.entries@;
                self.entries.push((name.to_owned(), attribute));
                proof {
                    let after = self.entries@;
                    lemma_table(before);
                    assert(after.drop_last() =~= before);
                    assert forall|i: int, j: int| 0 <= i < j < after.len() implies (
                    #[trigger] after[i]).0@ != (#[trigger] after[j]).0@ by {
                        assert(after[i] == before[i]);
                        if j < before.len() {
                            assert(after[j] == before[j]);
                        } else {
                            assert(table(before).dom().contains(before[i].0@));
                        }
                    }
                }
                Ok(attribute)
            },
        }
    }
}

/// Whether a driver that held `before` and was given the outcome `opened` of
/// opening the file of the attribute `name` holds `after` and answers `r`.
pub open spec fn is_opening(
    before: Map<Seq<char>, Attribute>,
    name: Seq<char>,
    opened: Result<i32, String>,
    after: Map<Seq<char>, Attribute>,
    r: Ev3Result<Attribute>,
) -> bool {
    if before.dom().contains(name) {
        &&& after == before
        &&& r matches Err(Ev3Error::InternalError { msg })
        &&& msg@ == "Internal error in the attribute map"@
    } else {
        match opened {
            Ok(fd) => {
                &&& r matches Ok(a)
                &&& a.descriptor() == fd
                &&& after == before.insert(name, a)
            },
            Err(cause) => {
                &&& after == before
                &&& r == Ev3Result::<Attribute>::Err(Ev3Error::Io { msg: cause })
            },
        }
    }
}

/// An attribute is opened once. Let a driver `fresh` hold nothing under
/// `name`, and let `first` be the driver after it was given the descriptor
/// `fd` of the file opened for `name`, with answer `made`. Then `first` holds
/// under `name` the attribute of that descriptor, holds under every other
/// name what `fresh` held, and counts one file more. From then on a request
/// for `name` is answered with that same attribute, and the driver refuses
/// whatever a second opening of `name` brought (`again`, with `second` the
/// driver after it and `refused` its answer) without any change.
pub proof fn law_opened_once(
    fresh: Driver,
    first: Driver,
    second: Driver,
    name: Seq<char>,
    fd: i32,
    made: Ev3Result<Attribute>,
    found: Ev3Result<Attribute>,
    again: Result<i32, String>,
    refused: Ev3Result<Attribute>,
)
    requires
        fresh.held(name) is None,
        is_opening(fresh.attributes(), name, Ok(fd), first.attributes(), made),
        first.opened() == fresh.opened() + if made is Ok {
            1nat
        } else {
            0nat
        },
        is_held(first.held(name), found),
        is_opening(first.attributes(), name, again, second.attributes(), refused),
    ensures
        made matches Ok(a) && a.descriptor() == fd && first.held(name) == Some(a) && found == made,
        forall|other: Seq<char>| other != name ==> first.held(other) == fresh.held(other),
        first.opened() == fresh.opened() + 1,
        second.attributes() == first.attributes(),
        refused matches Err(Ev3Error::InternalError { .. }),
{
}

} // verus!
