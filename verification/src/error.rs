//! Errors reported by this library
use crate::priv_util::SliceReadError;
use core::str::Utf8Error;
use vstd::prelude::*;
use vstd::std_specs::convert::FromSpecImpl;
use vstd::string::StringSliceAdditionalSpecFns;
use vstd::utf8::valid_utf8;

verus! {

/// `core::str::Utf8Error`, the error of `core::str::from_utf8`. Nothing is stated of what
/// it holds: the library only carries it to the caller.
#[verifier::external_type_specification]
#[verifier::external_body]
pub struct ExUtf8Error(Utf8Error);

/// The error that `core::str::from_utf8` returns for `bytes` where they are no UTF-8: it
/// depends on the bytes alone.
pub uninterp spec fn spec_utf8_error(bytes: Seq<u8>) -> Utf8Error;

/// `core::str::from_utf8` of std: it accepts exactly the byte strings that are UTF-8, and
/// the string it then returns holds the bytes it was given.
pub assume_specification<'a>[ core::str::from_utf8 ](v: &'a [u8]) -> (r: Result<&'a str, Utf8Error>)
    ensures
        match r {
            Ok(s) => valid_utf8(v@) && s.spec_bytes() == v@,
            Err(e) => !valid_utf8(v@) && e == spec_utf8_error(v@),
        },
;

/// An error describe parsing problems when creating device trees.
#[derive(Debug, Clone, Copy, PartialEq, Eq)]
pub enum DevTreeError {
    InvalidParameter(&'static str),
    /// The magic number FDT_MAGIC was not found at the start of the
    /// structure.
    InvalidMagicNumber,
    /// Unable to safely read data from the given device tree using the supplied offset
    InvalidOffset,
    /// The data was not formatted as expected.  This likely indicates an error in the Device Tree
    /// we're parsing.
    ParseError,
    /// While trying to convert a string that was supposed to be ASCII, invalid
    /// `str` sequences were encounter.
    StrError(Utf8Error),
    /// There wasn't enough memory to create a `DevTreeIndex`.
    NotEnoughMemory,
}

impl From<SliceReadError> for DevTreeError {
    fn from(e: SliceReadError) -> (r: DevTreeError) {
        DevTreeError::ParseError
    }
}

impl FromSpecImpl<SliceReadError> for DevTreeError {
    open spec fn obeys_from_spec() -> bool {
        true
    }

    open spec fn from_spec(e: SliceReadError) -> DevTreeError {
        DevTreeError::ParseError
    }
}

impl From<Utf8Error> for DevTreeError {
    fn from(e: Utf8Error) -> (r: DevTreeError) {
        DevTreeError::StrError(e)
    }
}

impl FromSpecImpl<Utf8Error> for DevTreeError {
    open spec fn obeys_from_spec() -> bool {
        true
    }

    open spec fn from_spec(e: Utf8Error) -> DevTreeError {
        DevTreeError::StrError(e)
    }
}

} // verus!
