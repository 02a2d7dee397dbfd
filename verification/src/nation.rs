//! The powers that issue orders.
use vstd::prelude::*;
use vstd::string::StringSliceAdditionalSpecFns;
use vstd::std_specs::cmp::PartialEqSpecImpl;
use vstd::std_specs::convert::FromSpecImpl;
use crate::ShortName;
use crate::text::{bytes_clone, bytes_eq, bytes_to_string, lower, to_lower};

verus! {

/// A power, known by its short name. Two nations are the same when their
/// short names agree once lower-cased.
#[derive(Debug)]
pub struct Nation {
    name: Vec<u8>,
}

impl View for Nation {
    type V = Seq<u8>;

    /// The lower-cased short name.
    closed spec fn view(&self) -> Seq<u8> {
        self.name@
    }
}

impl Nation {
    /// The nation with the given short name.
    pub fn new(name: &str) -> (r: Nation)
        ensures
            r@ == lower(name.spec_bytes()),
    {
        Nation { name: to_lower(name.as_bytes()) }
    }

    /// The nation with the given short name, given as bytes.
    pub fn from_bytes(name: &[u8]) -> (r: Nation)
        ensures
            r@ == lower(name@),
    {
        Nation { name: to_lower(name) }
    }

    /// The bytes of the lower-cased short name.
    pub fn name(&self) -> (r: &Vec<u8>)
        ensures
            r@ == self@,
    {
        &self.name
    }
}

impl Clone for Nation {
    fn clone(&self) -> (r: Nation)
        ensures
            r@ == self@,
    {
        Nation { name: bytes_clone(&self.name) }
    }
}

impl PartialEq for Nation {
    fn eq(&self, other: &Nation) -> (r: bool) {
        bytes_eq(&self.name, &other.name)
    }
}

impl Eq for Nation {

}

impl PartialEqSpecImpl for Nation {
    open spec fn obeys_eq_spec() -> bool {
        true
    }

    open spec fn eq_spec(&self, other: &Nation) -> bool {
        self@ == other@
    }
}

impl<'a> From<&'a str> for Nation {
    fn from(name: &'a str) -> (r: Nation)
        ensures
            r@ == lower(name.spec_bytes()),
    {
        Nation::new(name)
    }
}

impl<'a> FromSpecImpl<&'a str> for Nation {
    open spec fn obeys_from_spec() -> bool {
        false
    }

    open spec fn from_spec(name: &'a str) -> Nation {
        arbitrary()
    }
}

impl ShortName for Nation {
    fn short_name(&self) -> (r: String)
        ensures
            vstd::utf8::valid_utf8(self@) ==> r@ == vstd::utf8::decode_utf8(self@),
    {
        bytes_to_string(&self.name)
    }
}

} // verus!
