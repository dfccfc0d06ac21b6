//! Typed readers of a property's value.
use crate::base::tree::DevTree;
use crate::error::{spec_utf8_error, DevTreeError};
use crate::priv_util::{lemma_find_nul, spec_be_u32, spec_be_u64, spec_bstring0, SliceRead};
use crate::spec::Phandle;
use core::str::from_utf8;
use vstd::prelude::*;
use vstd::string::StringSliceAdditionalSpecFns;
use vstd::utf8::valid_utf8;

verus! {

/// What reading `bytes` as a string gives: the bytes themselves where they are UTF-8.
pub open spec fn spec_decode(bytes: Seq<u8>) -> Result<Seq<u8>, DevTreeError> {
    if valid_utf8(bytes) {
        Ok(bytes)
    } else {
        Err(DevTreeError::StrError(spec_utf8_error(bytes)))
    }
}

/// Tells whether `r` is the string, or the error, that `expected` describes.
pub open spec fn str_result_is(
    r: Result<&str, DevTreeError>,
    expected: Result<Seq<u8>, DevTreeError>,
) -> bool {
    match r {
        Ok(s) => expected == Ok::<Seq<u8>, DevTreeError>(s.spec_bytes()),
        Err(e) => expected == Err::<Seq<u8>, DevTreeError>(e),
    }
}

/// Reads `bytes` as a string.
pub fn bytes_as_str<'a>(bytes: &'a [u8]) -> (r: Result<&'a str, DevTreeError>)
    ensures
        str_result_is(r, spec_decode(bytes@)),
{
    match from_utf8(bytes) {
        Ok(s) => Ok(s),
        Err(e) => Err(DevTreeError::StrError(e)),
    }
}

/// The name of the property whose name lies at `name_offset` in the strings block of
/// `blob`: the bytes up to the first zero byte, read as a string.
pub open spec fn spec_prop_name(blob: Seq<u8>, name_offset: int) -> Result<Seq<u8>, DevTreeError> {
    match spec_bstring0(blob, spec_be_u32(blob, 12) + name_offset, blob.len() as int) {
        Some(name) => spec_decode(name),
        None => Err(DevTreeError::ParseError),
    }
}

/// One step of a walk over the strings of a property's value.
pub struct StrStep {
    pub result: Result<Option<Seq<u8>>, DevTreeError>,
    pub next_off: int,
}

/// The step of a walk over the strings of `value` with the cursor at `off`: the walk ends
/// at the end of the value; before it, the bytes up to the next zero byte are the next
/// string.
pub open spec fn spec_str_next(value: Seq<u8>, off: int) -> StrStep {
    if off >= value.len() || off < 0 {
        StrStep { result: Ok(None), next_off: off }
    } else {
        match spec_bstring0(value, off, value.len() as int) {
            None => StrStep { result: Err(DevTreeError::ParseError), next_off: off },
            Some(s) => StrStep {
                result: match spec_decode(s) {
                    Ok(s) => Ok(Some(s)),
                    Err(e) => Err(e),
                },
                next_off: off + s.len() + 1,
            },
        }
    }
}

/// The first string of `value`. An empty value has none, which is a `ParseError`.
pub open spec fn spec_str(value: Seq<u8>) -> Result<Seq<u8>, DevTreeError> {
    match spec_str_next(value, 0).result {
        Ok(Some(s)) => Ok(s),
        Ok(None) => Err(DevTreeError::ParseError),
        Err(e) => Err(e),
    }
}

/// Tells whether the strings of `value` from `off` on hold `s`. The walk stops at the
/// first string that is `s`; a string before it that cannot be read is an error.
pub open spec fn spec_str_list_contains(value: Seq<u8>, off: int, s: Seq<u8>) -> Result<
    bool,
    DevTreeError,
>
    decreases value.len() - off,
{
    let step = spec_str_next(value, off);
    match step.result {
        Err(e) => Err(e),
        Ok(None) => Ok(false),
        Ok(Some(entry)) => if entry == s {
            Ok(true)
        } else if off < step.next_off <= value.len() {
            spec_str_list_contains(value, step.next_off, s)
        } else {
            Ok(false)
        },
    }
}

/// A string that a walk returns ends within the value, and the cursor moves past it.
pub proof fn lemma_str_next_bounds(value: Seq<u8>, off: int)
    ensures
        spec_str_next(value, off).result matches Ok(Some(_)) ==> off < spec_str_next(
            value,
            off,
        ).next_off <= value.len(),
        spec_str_next(value, off).result is Err ==> 0 <= off < value.len(),
{
    if 0 <= off < value.len() {
        lemma_find_nul(value, off, value.len() as int);
    }
}

/// The name of the property that lists what a node is compatible with.
pub open spec fn spec_compatible_name() -> Seq<u8> {
    "compatible".spec_bytes()
}

/// Tells whether a property of `blob` with the value `value`, whose name lies at
/// `name_offset` in the strings block, is named "compatible" and holds `s` among the
/// strings of its value. A name or a string that cannot be read on the way is an error.
pub open spec fn spec_is_compatible(
    blob: Seq<u8>,
    name_offset: int,
    value: Seq<u8>,
    s: Seq<u8>,
) -> Result<bool, DevTreeError> {
    match spec_prop_name(blob, name_offset) {
        Err(e) => Err(e),
        Ok(name) => if name == spec_compatible_name() {
            spec_str_list_contains(value, 0, s)
        } else {
            Ok(false)
        },
    }
}

/// An iterator over the strings of a property's value.
#[derive(Clone, Copy, Debug)]
pub struct StringPropIter<'dt> {
    offset: usize,
    propbuf: &'dt [u8],
}

impl<'dt> StringPropIter<'dt> {
    /// The bytes that are walked.
    pub closed spec fn value(self) -> Seq<u8> {
        self.propbuf@
    }

    /// The place in the value of the next string.
    pub closed spec fn offset(self) -> int {
        self.offset as int
    }

    #[verifier::type_invariant]
    pub closed spec fn wf(self) -> bool {
        self.offset <= self.propbuf@.len()
    }

    /// A walk from the start of `propbuf`.
    pub fn new(propbuf: &'dt [u8]) -> (iter: Self)
        ensures
            iter.value() == propbuf@,
            iter.offset() == 0,
    {
        StringPropIter { offset: 0, propbuf }
    }

    /// Returns the next string of the value, `None` at the end of the value.
    pub fn next(&mut self) -> (r: Result<Option<&'dt str>, DevTreeError>)
        ensures
            final(self).value() == old(self).value(),
            final(self).offset() == spec_str_next(old(self).value(), old(self).offset()).next_off,
            match r {
                Ok(Some(s)) => spec_str_next(old(self).value(), old(self).offset()).result == Ok::<
                    Option<Seq<u8>>,
                    DevTreeError,
                >(Some(s.spec_bytes())),
                Ok(None) => spec_str_next(old(self).value(), old(self).offset()).result == Ok::<
                    Option<Seq<u8>>,
                    DevTreeError,
                >(None),
                Err(e) => spec_str_next(old(self).value(), old(self).offset()).result == Err::<
                    Option<Seq<u8>>,
                    DevTreeError,
                >(e),
            },
            r matches Ok(Some(_)) ==> final(self).offset() > old(self).offset(),
    {
        proof {
            use_type_invariant(&*self);
        }
        let propbuf: &'dt [u8] = self.propbuf;
        let offset: usize = self.offset;
        let len: usize = propbuf.len();
        if offset >= len {
            return Ok(None);
        }
        proof {
            lemma_find_nul(propbuf@, offset as int, len as int);
        }
        let u8_slice: &'dt [u8] = match propbuf.read_bstring0(offset) {
            Ok(s) => s,
            Err(_) => {
                return Err(DevTreeError::ParseError);
            },
        };
        // Include null byte
        *self = StringPropIter { offset: offset + u8_slice.len() + 1, propbuf };
        match bytes_as_str(u8_slice) {
            Ok(s) => Ok(Some(s)),
            Err(e) => Err(e),
        }
    }
}

/// Tells whether the strings of `value` hold `s`, as `spec_str_list_contains` states it.
pub fn str_list_contains(value: &[u8], s: &str) -> (r: Result<bool, DevTreeError>)
    ensures
        r == spec_str_list_contains(value@, 0, s.spec_bytes()),
{
    let mut iter = StringPropIter::new(value);
    let wanted: &[u8] = s.as_bytes();
    loop
        invariant
            iter.value() == value@,
            wanted@ == s.spec_bytes(),
            0 <= iter.offset(),
            spec_str_list_contains(value@, 0, s.spec_bytes()) == spec_str_list_contains(
                value@,
                iter.offset(),
                s.spec_bytes(),
            ),
        decreases value@.len() - iter.offset(),
    {
        proof {
            use_type_invariant(&iter);
            lemma_str_next_bounds(value@, iter.offset());
        }
        match iter.next() {
            Err(e) => {
                return Err(e);
            },
            Ok(None) => {
                return Ok(false);
            },
            Ok(Some(entry)) => {
                if crate::base::tree::same_bytes(entry.as_bytes(), wanted) {
                    return Ok(true);
                }
            },
        }
    }
}

pub trait PropReader<'dt> {
    type NodeType;

    /// The bytes of the property's value.
    spec fn spec_propbuf(&self) -> Seq<u8>;

    /// The offset of the property's name in the strings block.
    spec fn spec_nameoff(&self) -> int;

    /// The bytes of the blob that holds the property.
    spec fn spec_blob(&self) -> Seq<u8>;

    /// Tells whether `node` is the node that holds the property.
    spec fn node_is(&self, node: Self::NodeType) -> bool;

    /// Returns the buffer associtated with the property's data.
    fn propbuf(&self) -> (r: &'dt [u8])
        ensures
            r@ == self.spec_propbuf(),
    ;

    /// Returns offset of this property's name in the device tree buffer.
    fn nameoff(&self) -> (r: usize)
        ensures
            r == self.spec_nameoff(),
    ;

    fn fdt(&self) -> (r: &DevTree<'dt>)
        ensures
            r@ == self.spec_blob(),
    ;

    /// Returns the node which this property is contained within.
    fn node(&self) -> (r: Self::NodeType)
        ensures
            self.node_is(r),
    ;

    /// Returns the name of the property within the device tree.
    fn name(&self) -> (r: Result<&'dt str, DevTreeError>)
        ensures
            str_result_is(r, spec_prop_name(self.spec_blob(), self.spec_nameoff())),
    {
        let fdt = self.fdt();
        let buf: &'dt [u8] = fdt.buf();
        let strings: usize = fdt.off_dt_strings();
        let nameoff: usize = self.nameoff();
        if strings > buf.len() || nameoff >= buf.len() - strings {
            proof {
                let pos = strings + nameoff;
                assert(spec_bstring0(buf@, pos, buf@.len() as int) is None);
            }
            return Err(DevTreeError::ParseError);
        }
        match buf.read_bstring0(strings + nameoff) {
            Ok(name) => bytes_as_str(name),
            Err(_) => Err(DevTreeError::ParseError),
        }
    }

    /// Returns the length of the property value within the device tree
    #[must_use]
    fn length(&self) -> (r: usize)
        ensures
            r == self.spec_propbuf().len(),
    {
        self.propbuf().len()
    }

    /// Read a big-endian [`u32`] from the provided offset in this device tree property's value.
    /// Convert the read value into the machines' native [`u32`] format and return it.
    ///
    /// If an offset which would cause this read to access memory outside of this property's value
    /// an [`Err`] containing [`DevTreeError::InvalidOffset`] will be returned.
    fn u32(&self, offset: usize) -> (r: Result<u32, DevTreeError>)
        ensures
            offset + 4 <= self.spec_propbuf().len() ==> r == Ok::<u32, DevTreeError>(
                spec_be_u32(self.spec_propbuf(), offset as int) as u32,
            ),
            offset + 4 > self.spec_propbuf().len() ==> r == Err::<u32, DevTreeError>(
                DevTreeError::InvalidOffset,
            ),
    {
        match self.propbuf().read_be_u32(offset) {
            Ok(v) => Ok(v),
            Err(_) => Err(DevTreeError::InvalidOffset),
        }
    }

    /// Read a big-endian [`u64`] from the provided offset in this device tree property's value.
    /// Convert the read value into the machines' native [`u64`] format and return it.
    ///
    /// If an offset which would cause this read to access memory outside of this property's value
    /// an [`Err`] containing [`DevTreeError::InvalidOffset`] will be returned.
    fn u64(&self, offset: usize) -> (r: Result<u64, DevTreeError>)
        ensures
            offset + 8 <= self.spec_propbuf().len() ==> r == Ok::<u64, DevTreeError>(
                spec_be_u64(self.spec_propbuf(), offset as int) as u64,
            ),
            offset + 8 > self.spec_propbuf().len() ==> r == Err::<u64, DevTreeError>(
                DevTreeError::InvalidOffset,
            ),
    {
        match self.propbuf().read_be_u64(offset) {
            Ok(v) => Ok(v),
            Err(_) => Err(DevTreeError::InvalidOffset),
        }
    }

    /// A Phandle is simply defined as a u32 value, as such this method performs the same action as
    /// [`self.u32`]
    fn phandle(&self, offset: usize) -> (r: Result<Phandle, DevTreeError>)
        ensures
            offset + 4 <= self.spec_propbuf().len() ==> r == Ok::<u32, DevTreeError>(
                spec_be_u32(self.spec_propbuf(), offset as int) as u32,
            ),
            offset + 4 > self.spec_propbuf().len() ==> r == Err::<u32, DevTreeError>(
                DevTreeError::InvalidOffset,
            ),
    {
        match self.propbuf().read_be_u32(offset) {
            Ok(v) => Ok(v),
            Err(_) => Err(DevTreeError::InvalidOffset),
        }
    }

    /// Returns the string property as a string if it can be parsed as one.
    fn str(&self) -> (r: Result<&'dt str, DevTreeError>)
        ensures
            str_result_is(r, spec_str(self.spec_propbuf())),
    {
        let mut iter = self.iter_str();
        match iter.next() {
            Ok(Some(s)) => Ok(s),
            Ok(None) => Err(DevTreeError::ParseError),
            Err(e) => Err(e),
        }
    }

    /// Returns an iterator over the strings of the property's value, from its first.
    fn iter_str(&self) -> (iter: StringPropIter<'dt>)
        ensures
            iter.value() == self.spec_propbuf(),
            iter.offset() == 0,
    {
        StringPropIter::new(self.propbuf())
    }

    /// Returns this property's data as a raw slice
    fn raw(&self) -> (r: &'dt [u8])
        ensures
            r@ == self.spec_propbuf(),
    {
        self.propbuf()
    }
}

/// Tells whether `prop` is named "compatible" and holds `string` among the strings of its
/// value.
pub fn prop_is_compatible<'dt, P: PropReader<'dt>>(prop: &P, string: &str) -> (r: Result<
    bool,
    DevTreeError,
>)
    ensures
        r == spec_is_compatible(
            prop.spec_blob(),
            prop.spec_nameoff(),
            prop.spec_propbuf(),
            string.spec_bytes(),
        ),
{
    let name = match prop.name() {
        Ok(name) => name,
        Err(e) => {
            return Err(e);
        },
    };
    if crate::base::tree::same_bytes(name.as_bytes(), "compatible".as_bytes()) {
        str_list_contains(prop.propbuf(), string)
    } else {
        Ok(false)
    }
}

/// Where a property's value has a first string, the walk over its strings starts with it:
/// `str` and the first step of `iter_str` give the same string.
pub proof fn lemma_str_is_first(value: Seq<u8>)
    ensures
        spec_str(value) matches Ok(s) ==> spec_str_next(value, 0).result == Ok::<
            Option<Seq<u8>>,
            DevTreeError,
        >(Some(s)),
        spec_str_next(value, 0).result matches Ok(Some(s)) ==> spec_str(value) == Ok::<
            Seq<u8>,
            DevTreeError,
        >(s),
        spec_str_next(value, 0).result matches Err(e) ==> spec_str(value) == Err::<
            Seq<u8>,
            DevTreeError,
        >(e),
{
}

/// A value without a byte has no string: the walk over its strings ends at once, and
/// `str` fails.
pub proof fn lemma_empty_value(value: Seq<u8>)
    requires
        value.len() == 0,
    ensures
        spec_str_next(value, 0).result == Ok::<Option<Seq<u8>>, DevTreeError>(None),
        spec_str(value) == Err::<Seq<u8>, DevTreeError>(DevTreeError::ParseError),
{
}

} // verus!
