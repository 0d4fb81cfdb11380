//! The values that packers and unpackers exchange with their callers.

use crate::layout::magic;
use vstd::prelude::*;
use vstd::string::StringSliceAdditionalSpecFns;

verus! {

broadcast use {vstd::string::group_string_axioms, vstd::slice::group_slice_axioms};

/// The file header.
pub const FILE_TYPE: &'static str = "SMPL";

/// The header size.
pub const HEADER_SIZE: u64 = 6;

/// The version of a container's layout: a major and a minor number.
#[derive(Debug, PartialEq, Eq, Structural)]
pub struct Version {
    pub maj: u8,
    pub min: u8,
}

impl From<(u8, u8)> for Version {
    fn from(v: (u8, u8)) -> (version: Self) {
        Self { maj: v.0, min: v.1 }
    }
}

impl vstd::std_specs::convert::FromSpecImpl<(u8, u8)> for Version {
    open spec fn obeys_from_spec() -> bool {
        true
    }

    open spec fn from_spec(v: (u8, u8)) -> Self {
        Version { maj: v.0, min: v.1 }
    }
}

impl From<Version> for (u8, u8) {
    fn from(v: Version) -> (pair: Self) {
        (v.maj, v.min)
    }
}

impl vstd::std_specs::convert::FromSpecImpl<Version> for (u8, u8) {
    open spec fn obeys_from_spec() -> bool {
        true
    }

    open spec fn from_spec(v: Version) -> Self {
        (v.maj, v.min)
    }
}

/// A record as a mathematical value: the characters of its name and its bytes.
pub struct Blob {
    pub name: Seq<char>,
    pub data: Seq<u8>,
}

/// The abstraction over a single record in the file.
#[derive(Debug)]
pub struct Record {
    pub name: String,
    pub data: Vec<u8>,
}

impl View for Record {
    type V = Blob;

    open spec fn view(&self) -> Blob {
        Blob { name: self.name@, data: self.data@ }
    }
}

impl DeepView for Record {
    type V = Blob;

    open spec fn deep_view(&self) -> Blob {
        self.view()
    }
}

impl Record {
    /// Create a new record.
    #[must_use]
    pub fn new(name: String, data: Vec<u8>) -> (record: Self)
        ensures
            record.name == name,
            record.data == data,
    {
        Self { name, data }
    }
}

/// The `n` bytes of `r` that start at `at`, in a vector of their own.
pub fn copy_of(r: &[u8], at: usize, n: usize) -> (bytes: Vec<u8>)
    requires
        at + n <= r@.len(),
    ensures
        bytes@ == r@.subrange(at as int, at + n),
{
    assert(r@.len() == r.len());
    vstd::slice::slice_to_vec(vstd::slice::slice_subrange(r, at, at + n))
}

/// The bytes of [`FILE_TYPE`]: the magic number.
pub fn magic_bytes() -> (bytes: &'static [u8])
    ensures
        bytes@ == magic(),
{
    proof {
        reveal_strlit("SMPL");
        assert(vstd::string::is_ascii(FILE_TYPE));
    }
    FILE_TYPE.as_bytes()
}

} // verus!
