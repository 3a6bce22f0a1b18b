//! Header data types and the three QPACK error conditions.

use vstd::prelude::*;
use vstd::string::StrSliceExecFns;
use vstd::string::StringSliceAdditionalSpecFns;

verus! {

/// The three error conditions of QPACK, named after the error codes they map
/// to. Every fallible operation of the crate reports one of these.
#[derive(Clone, Copy, Debug, PartialEq, Eq, Structural)]
pub enum QpackError {
    /// Malformed wire bytes, an out-of-range table index, invalid Huffman
    /// padding, an unknown representation pattern, or the blocked-stream
    /// limit being exceeded.
    DecompressionFailed,
    /// An insertion past capacity, an eviction blocked by an outstanding
    /// reference, or a capacity beyond the configured maximum.
    EncoderStreamError,
    /// An acknowledgement for an unknown stream, or an invalid insert-count
    /// increment.
    DecoderStreamError,
}

/// A header name or value: its octets plus a flag choosing the on-wire
/// encoding (Huffman-coded when `true`, literal octets when `false`).
/// The flag is a presentation hint, not identity: equality ignores it.
#[derive(Clone, Debug)]
pub struct HeaderString {
    pub value: Vec<u8>,
    pub huffman: bool,
}

impl HeaderString {
    pub fn new(value: Vec<u8>, huffman: bool) -> (r: Self)
        ensures
            r.value@ == value@,
            r.huffman == huffman,
    {
        HeaderString { value, huffman }
    }

    /// Builds a header string from the bytes of a string slice.
    pub fn from_str(value: &str, huffman: bool) -> (r: Self)
        ensures
            r.value@ == value.spec_bytes(),
            r.huffman == huffman,
    {
        HeaderString { value: value.as_bytes_vec(), huffman }
    }

    pub fn len(&self) -> (r: usize)
        ensures
            r == self.value@.len(),
    {
        self.value.len()
    }
}

impl PartialEq for HeaderString {
    fn eq(&self, other: &Self) -> (r: bool) {
        let r = self.value == other.value;
        proof {
            if r {
                assert(self.value@ =~= other.value@);
            }
        }
        r
    }
}

impl Eq for HeaderString {}

impl vstd::std_specs::cmp::PartialEqSpecImpl for HeaderString {
    open spec fn obeys_eq_spec() -> bool {
        true
    }

    open spec fn eq_spec(&self, other: &Self) -> bool {
        self.value@ == other.value@
    }
}

/// One header field: a name, a value, and the sensitivity flag that forces a
/// literal representation and forbids the recipient from indexing the pair.
#[derive(Clone, Debug)]
pub struct Header {
    pub name: HeaderString,
    pub value: HeaderString,
    pub sensitive: bool,
}

impl Header {
    /// The octets of the name.
    pub open spec fn name_bytes(&self) -> Seq<u8> {
        self.name.value@
    }

    /// The octets of the value.
    pub open spec fn value_bytes(&self) -> Seq<u8> {
        self.value.value@
    }

    /// Two headers carry the same field when name, value and sensitivity
    /// agree; the Huffman presentation hints are not identity.
    pub open spec fn same_field(&self, other: &Header) -> bool {
        &&& self.name_bytes() == other.name_bytes()
        &&& self.value_bytes() == other.value_bytes()
        &&& self.sensitive == other.sensitive
    }

    /// The table size of the field: name length + value length + 32 octets.
    pub open spec fn size_spec(&self) -> nat {
        self.name_bytes().len() + self.value_bytes().len() + 32
    }

    pub fn new(name: Vec<u8>, value: Vec<u8>, sensitive: bool) -> (r: Self)
        ensures
            r.name_bytes() == name@,
            r.value_bytes() == value@,
            r.sensitive == sensitive,
            !r.name.huffman,
            !r.value.huffman,
    {
        Header {
            name: HeaderString::new(name, false),
            value: HeaderString::new(value, false),
            sensitive,
        }
    }

    pub fn new_with_header_string(name: HeaderString, value: HeaderString, sensitive: bool) -> (r: Self)
        ensures
            r.name == name,
            r.value == value,
            r.sensitive == sensitive,
    {
        Header { name, value, sensitive }
    }

    /// Builds an insensitive, literal-coded header from two string slices.
    pub fn from_str(name: &str, value: &str) -> (r: Self)
        ensures
            r.name_bytes() == name.spec_bytes(),
            r.value_bytes() == value.spec_bytes(),
            !r.sensitive,
            !r.name.huffman,
            !r.value.huffman,
    {
        Header {
            name: HeaderString::from_str(name, false),
            value: HeaderString::from_str(value, false),
            sensitive: false,
        }
    }

    /// The field's size in octets: name length + value length + 32.
    /// `None` when the sum does not fit in `usize`.
    pub fn size(&self) -> (r: Option<usize>)
        ensures
            match r {
                Some(s) => s == self.size_spec(),
                None => self.size_spec() > usize::MAX,
            },
    {
        match self.name.value.len().checked_add(self.value.value.len()) {
            Some(s) => s.checked_add(32),
            None => None,
        }
    }

    pub fn get_name(&self) -> (r: &HeaderString)
        ensures
            r == self.name,
    {
        &self.name
    }

    pub fn get_value(&self) -> (r: &HeaderString)
        ensures
            r == self.value,
    {
        &self.value
    }

    pub fn move_value(self) -> (r: HeaderString)
        ensures
            r == self.value,
    {
        self.value
    }

    pub fn set_value(&mut self, value: HeaderString)
        ensures
            final(self).value == value,
            final(self).name == old(self).name,
            final(self).sensitive == old(self).sensitive,
    {
        self.value = value;
    }

    pub fn set_sensitive(&mut self, sensitive: bool)
        ensures
            final(self).sensitive == sensitive,
            final(self).name == old(self).name,
            final(self).value == old(self).value,
    {
        self.sensitive = sensitive;
    }

    /// Flips the presentation hints for name and value.
    pub fn set_huffman(&mut self, flags: (bool, bool))
        ensures
            final(self).name.value == old(self).name.value,
            final(self).value.value == old(self).value.value,
            final(self).name.huffman == flags.0,
            final(self).value.huffman == flags.1,
            final(self).sensitive == old(self).sensitive,
    {
        self.name.huffman = flags.0;
        self.value.huffman = flags.1;
    }
}

impl PartialEq for Header {
    fn eq(&self, other: &Self) -> (r: bool) {
        self.name == other.name && self.value == other.value && self.sensitive == other.sensitive
    }
}

impl Eq for Header {}

impl vstd::std_specs::cmp::PartialEqSpecImpl for Header {
    open spec fn obeys_eq_spec() -> bool {
        true
    }

    open spec fn eq_spec(&self, other: &Self) -> bool {
        self.same_field(other)
    }
}

} // verus!
