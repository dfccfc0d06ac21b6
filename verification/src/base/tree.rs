//! The header of a flattened device tree, and the handle to a validated blob.
use crate::base::iters::{
    spec_next_node, DevTreeCompatibleNodeIter, DevTreeIter, DevTreeNodeIter, DevTreePropIter,
    DevTreeReserveEntryIter, ItemView, IterState, NodeView,
};
use crate::base::node::{spec_child_named, DevTreeNode};
use crate::base::parse::DevTreeParseIter;
use crate::error::DevTreeError;
use crate::priv_util::{spec_be_u32, SliceRead};
use crate::spec::{FDT_HEADER_SIZE, FDT_MAGIC};
use vstd::prelude::*;
use vstd::std_specs::cmp::PartialEqSpecImpl;
use vstd::string::StringSliceAdditionalSpecFns;

verus! {

/// Byte offset of each field within the header.
pub const OFF_MAGIC: usize = 0;

pub const OFF_TOTALSIZE: usize = 4;

pub const OFF_OFF_DT_STRUCT: usize = 8;

pub const OFF_OFF_DT_STRINGS: usize = 12;

pub const OFF_OFF_MEM_RSVMAP: usize = 16;

pub const OFF_VERSION: usize = 20;

pub const OFF_LAST_COMP_VERSION: usize = 24;

pub const OFF_BOOT_CPUID_PHYS: usize = 28;

pub const OFF_SIZE_DT_STRINGS: usize = 32;

pub const OFF_SIZE_DT_STRUCT: usize = 36;

/// Tells whether `offset` is a multiple of four, the size of a token.
pub open spec fn spec_is_aligned(offset: int) -> bool {
    offset % 4 == 0
}

/// Tells whether `offset` is a multiple of four.
pub fn is_aligned(offset: usize) -> (r: bool)
    ensures
        r == spec_is_aligned(offset as int),
{
    offset % 4 == 0
}

/// Returns `offset` where it is a multiple of four, and a `ParseError` where it is not.
pub fn verify_offset_aligned(offset: usize) -> (r: Result<usize, DevTreeError>)
    ensures
        r == (if spec_is_aligned(offset as int) {
            Ok::<usize, DevTreeError>(offset)
        } else {
            Err::<usize, DevTreeError>(DevTreeError::ParseError)
        }),
{
    if is_aligned(offset) {
        Ok(offset)
    } else {
        Err(DevTreeError::ParseError)
    }
}

/// What `DevTree::verify_magic` returns for a buffer that holds `buf`.
pub open spec fn spec_verify_magic(buf: Seq<u8>) -> Result<(), DevTreeError> {
    if buf.len() < 4 {
        Err(DevTreeError::ParseError)
    } else if spec_be_u32(buf, 0) != FDT_MAGIC {
        Err(DevTreeError::InvalidMagicNumber)
    } else {
        Ok(())
    }
}

/// What `DevTree::read_totalsize` returns for a buffer that holds `buf` and starts at the
/// address `addr`.
pub open spec fn spec_read_totalsize(buf: Seq<u8>, addr: int) -> Result<usize, DevTreeError> {
    if !spec_is_aligned(addr) {
        Err(DevTreeError::InvalidParameter("Unaligned buffer provided"))
    } else if spec_verify_magic(buf) is Err {
        Err(spec_verify_magic(buf)->Err_0)
    } else if buf.len() < 8 {
        Err(DevTreeError::ParseError)
    } else {
        Ok(spec_be_u32(buf, 4) as usize)
    }
}

/// A blob that this library accepts: it holds a whole header with the magic number, is
/// exactly as long as its header says, and its memory reservation block and structure
/// block start at multiples of four.
pub open spec fn spec_valid_blob(buf: Seq<u8>) -> bool {
    &&& buf.len() >= FDT_HEADER_SIZE
    &&& spec_be_u32(buf, 0) == FDT_MAGIC
    &&& spec_be_u32(buf, 4) == buf.len()
    &&& spec_is_aligned(spec_be_u32(buf, 16))
    &&& spec_is_aligned(spec_be_u32(buf, 8))
}

/// The error that `DevTree::new` returns for a buffer that holds `buf` and starts at the
/// address `addr`, or `None` where it accepts the buffer.
pub open spec fn spec_open_error(buf: Seq<u8>, addr: int) -> Option<DevTreeError> {
    if spec_read_totalsize(buf, addr) is Err {
        Some(spec_read_totalsize(buf, addr)->Err_0)
    } else if spec_valid_blob(buf) {
        None
    } else {
        Some(DevTreeError::ParseError)
    }
}

/// The state of the in-order parser before the first token of the structure block.
pub open spec fn spec_start_state(buf: Seq<u8>) -> IterState {
    IterState { offset: spec_be_u32(buf, 8), depth: -1, parent: None }
}

/// The root of the tree in `buf`: the first node of the structure block.
pub open spec fn spec_root(buf: Seq<u8>) -> Result<Option<NodeView>, DevTreeError> {
    match spec_next_node(buf, spec_start_state(buf)).result {
        Ok(Some((ItemView::Node(node), _))) => Ok(Some(node)),
        Ok(_) => Ok(None),
        Err(e) => Err(e),
    }
}

/// The node that the names of `path` lead to from `node`: each name is looked for among
/// the children of the node that the names before it led to.
pub open spec fn spec_node_at_path(buf: Seq<u8>, node: NodeView, path: Seq<&str>) -> Result<
    Option<NodeView>,
    DevTreeError,
>
    decreases path.len(),
{
    if path.len() == 0 {
        Ok(Some(node))
    } else {
        match spec_child_named(
            buf,
            node.state,
            node.state.depth + 1,
            false,
            path[0].spec_bytes(),
        ) {
            Ok(Some(child)) => spec_node_at_path(buf, child, path.subrange(1, path.len() as int)),
            Ok(None) => Ok(None),
            Err(e) => Err(e),
        }
    }
}

/// `<[u8]>::as_ptr` of std, as a number: the address of the first byte of `buf`. An
/// address differs from run to run, so nothing is stated of the result.
#[verifier::external_body]
fn start_address(buf: &[u8]) -> (addr: usize) {
    buf.as_ptr() as usize
}

/// A parseable Flattened Device Tree.
///
/// The blob has the format that the Devicetree standard, version 0.3, lays down
/// (https://www.devicetree.org/).
#[derive(Copy, Clone, Debug)]
pub struct DevTree<'dt> {
    buf: &'dt [u8],
}

impl<'dt> DevTree<'dt> {
    pub const MIN_HEADER_SIZE: usize = 40;

    /// Every `DevTree` holds a blob that `spec_valid_blob` accepts.
    #[verifier::type_invariant]
    pub closed spec fn wf(self) -> bool {
        spec_valid_blob(self.buf@)
    }

    /// The bytes of the blob.
    pub closed spec fn view(self) -> Seq<u8> {
        self.buf@
    }

    /// Verify the magic header of a Device Tree buffer
    pub fn verify_magic(buf: &[u8]) -> (r: Result<(), DevTreeError>)
        ensures
            r == spec_verify_magic(buf@),
    {
        match buf.read_be_u32(OFF_MAGIC) {
            Err(_) => Err(DevTreeError::ParseError),
            Ok(magic) => {
                if magic != FDT_MAGIC {
                    Err(DevTreeError::InvalidMagicNumber)
                } else {
                    Ok(())
                }
            },
        }
    }

    /// As `read_totalsize`, for a buffer whose first byte lies at the address `addr`.
    pub fn read_totalsize_at(buf: &[u8], addr: usize) -> (r: Result<usize, DevTreeError>)
        ensures
            r == spec_read_totalsize(buf@, addr as int),
    {
        // Verify provided buffer alignment
        if verify_offset_aligned(addr).is_err() {
            return Err(DevTreeError::InvalidParameter("Unaligned buffer provided"));
        }
        // Verify provided buffer magic
        match Self::verify_magic(buf) {
            Err(e) => Err(e),
            Ok(()) => match buf.read_be_u32(OFF_TOTALSIZE) {
                Err(_) => Err(DevTreeError::ParseError),
                Ok(size) => Ok(size as usize),
            },
        }
    }

    /// Using the provided byte slice this method will:
    ///
    /// 1. Verify that the slice begins with the magic Device Tree header
    /// 2. Return the reported `totalsize` field of the Device Tree header
    ///
    /// When parsing a FDT, it's possible that the actual size of the device tree may be unknown.
    /// For that reason, this method can be called before constructing the [`DevTree`]. For this
    /// read to take place, the provided buffer must be at least eight bytes long.
    ///
    /// Once known, the user should resize the raw byte slice to this function's return value and
    /// pass that slice to [`DevTree::new()`].
    ///
    /// The buffer must start at a multiple of four: `InvalidParameter` is returned
    /// otherwise.
    pub fn read_totalsize(buf: &[u8]) -> (r: Result<usize, DevTreeError>)
        ensures
            exists|addr: usize| r == spec_read_totalsize(buf@, addr as int),
    {
        let addr: usize = start_address(buf);
        Self::read_totalsize_at(buf, addr)
    }

    /// As `new`, for a buffer whose first byte lies at the address `addr`.
    pub fn new_at(buf: &'dt [u8], addr: usize) -> (r: Result<Self, DevTreeError>)
        ensures
            match r {
                Ok(fdt) => spec_open_error(buf@, addr as int) is None && fdt@ == buf@ && fdt.wf(),
                Err(e) => spec_open_error(buf@, addr as int) == Some(e),
            },
    {
        match Self::read_totalsize_at(buf, addr) {
            Err(e) => Err(e),
            Ok(totalsize) => {
                if totalsize != buf.len() || buf.len() < FDT_HEADER_SIZE {
                    return Err(DevTreeError::ParseError);
                }
                let off_mem_rsvmap: u32 = match buf.read_be_u32(OFF_OFF_MEM_RSVMAP) {
                    Ok(v) => v,
                    Err(_) => {
                        return Err(DevTreeError::ParseError);
                    },
                };
                let off_dt_struct: u32 = match buf.read_be_u32(OFF_OFF_DT_STRUCT) {
                    Ok(v) => v,
                    Err(_) => {
                        return Err(DevTreeError::ParseError);
                    },
                };
                // Verify required alignment before returning.
                if verify_offset_aligned(off_mem_rsvmap as usize).is_err() {
                    return Err(DevTreeError::ParseError);
                }
                if verify_offset_aligned(off_dt_struct as usize).is_err() {
                    return Err(DevTreeError::ParseError);
                }
                Ok(DevTree { buf })
            },
        }
    }

    /// Construct the parseable DevTree object from the provided byte slice.
    ///
    /// The buffer must start at a multiple of four and hold exactly the blob: its length
    /// is the `totalsize` of the header.
    pub fn new(buf: &'dt [u8]) -> (r: Result<Self, DevTreeError>)
        ensures
            exists|addr: usize|
                match r {
                    Ok(fdt) => #[trigger] spec_open_error(buf@, addr as int) is None && fdt@
                        == buf@ && fdt.wf(),
                    Err(e) => spec_open_error(buf@, addr as int) == Some(e),
                },
    {
        let addr: usize = start_address(buf);
        Self::new_at(buf, addr)
    }

    /// Reads the header field at the byte offset `off`.
    fn header_field(&self, off: usize) -> (v: u32)
        requires
            off + 4 <= FDT_HEADER_SIZE,
        ensures
            v == spec_be_u32(self@, off as int),
    {
        proof {
            use_type_invariant(self);
        }
        match self.buf.read_be_u32(off) {
            Ok(v) => v,
            Err(_) => 0,
        }
    }

    /// Returns the totalsize field of the Device Tree. This is the number of bytes of the device
    /// tree structure.
    #[must_use]
    pub fn totalsize(&self) -> (v: usize)
        ensures
            v == spec_be_u32(self@, 4),
            v == self@.len(),
    {
        proof {
            use_type_invariant(self);
        }
        self.header_field(OFF_TOTALSIZE) as usize
    }

    /// Returns the rsvmap offset field of the Device Tree
    #[must_use]
    pub fn off_mem_rsvmap(&self) -> (v: usize)
        ensures
            v == spec_be_u32(self@, 16),
            spec_is_aligned(v as int),
    {
        proof {
            use_type_invariant(self);
        }
        self.header_field(OFF_OFF_MEM_RSVMAP) as usize
    }

    /// Returns the dt_struct offset field of the Device Tree
    #[must_use]
    pub fn off_dt_struct(&self) -> (v: usize)
        ensures
            v == spec_be_u32(self@, 8),
            spec_is_aligned(v as int),
    {
        proof {
            use_type_invariant(self);
        }
        self.header_field(OFF_OFF_DT_STRUCT) as usize
    }

    /// Returns the dt_strings offset field of the Device Tree
    #[must_use]
    pub fn off_dt_strings(&self) -> (v: usize)
        ensures
            v == spec_be_u32(self@, 12),
    {
        self.header_field(OFF_OFF_DT_STRINGS) as usize
    }

    /// Returns the magic field of the Device Tree
    #[must_use]
    pub fn magic(&self) -> (v: u32)
        ensures
            v == spec_be_u32(self@, 0),
            v == FDT_MAGIC,
    {
        proof {
            use_type_invariant(self);
        }
        self.header_field(OFF_MAGIC)
    }

    /// Returns the version field of the Device Tree
    #[must_use]
    pub fn version(&self) -> (v: u32)
        ensures
            v == spec_be_u32(self@, 20),
    {
        self.header_field(OFF_VERSION)
    }

    /// Returns the boot_cpuid_phys field of the Device Tree
    #[must_use]
    pub fn boot_cpuid_phys(&self) -> (v: u32)
        ensures
            v == spec_be_u32(self@, 28),
    {
        self.header_field(OFF_BOOT_CPUID_PHYS)
    }

    /// Returns the last_comp_version field of the Device Tree
    #[must_use]
    pub fn last_comp_version(&self) -> (v: u32)
        ensures
            v == spec_be_u32(self@, 24),
    {
        self.header_field(OFF_LAST_COMP_VERSION)
    }

    /// Returns the size_dt_strings field of the Device Tree
    #[must_use]
    pub fn size_dt_strings(&self) -> (v: u32)
        ensures
            v == spec_be_u32(self@, 32),
    {
        self.header_field(OFF_SIZE_DT_STRINGS)
    }

    /// Returns the size_dt_struct field of the Device Tree
    #[must_use]
    pub fn size_dt_struct(&self) -> (v: u32)
        ensures
            v == spec_be_u32(self@, 36),
    {
        self.header_field(OFF_SIZE_DT_STRUCT)
    }

    /// Returns an iterator over the Dev Tree "5.3 Memory Reservation Blocks"
    #[must_use]
    pub fn reserved_entries(&self) -> (r: DevTreeReserveEntryIter<'_, 'dt>)
        ensures
            r.offset() == spec_be_u32(self@, 16),
            r.blob() == self@,
    {
        DevTreeReserveEntryIter::new(self)
    }

    /// Returns an iterator over [`DevTreeNode`] objects
    pub fn nodes(&self) -> (r: DevTreeNodeIter<'_, 'dt>)
        ensures
            r.0@ == spec_start_state(self@),
            r.0.blob() == self@,
    {
        DevTreeNodeIter(DevTreeIter::new(self))
    }

    /// Returns an iterator over the properties of the tree.
    #[must_use]
    pub fn props(&self) -> (r: DevTreePropIter<'_, 'dt>)
        ensures
            r.0@ == spec_start_state(self@),
            r.0.blob() == self@,
    {
        DevTreePropIter(DevTreeIter::new(self))
    }

    /// Returns an iterator over objects within the [`DevTreeItem`] enum
    pub fn items(&self) -> (r: DevTreeIter<'_, 'dt>)
        ensures
            r@ == spec_start_state(self@),
            r.blob() == self@,
    {
        DevTreeIter::new(self)
    }

    /// Returns an iterator over low level parsing tokens, [`ParsedTok`].
    #[must_use]
    pub fn parse_iter(&self) -> (r: DevTreeParseIter<'_, 'dt>)
        ensures
            r.offset == spec_be_u32(self@, 8),
            r.fdt@ == self@,
    {
        DevTreeParseIter::new(self)
    }

    /// Returns an iterator over the nodes that hold `string` in their property "compatible".
    pub fn compatible_nodes<'s, 'a: 's>(&'a self, string: &'s str) -> (r: DevTreeCompatibleNodeIter<
        's,
        'a,
        'dt,
    >)
        ensures
            r.iter@ == spec_start_state(self@),
            r.iter.blob() == self@,
            r.string == string,
    {
        DevTreeCompatibleNodeIter { iter: self.items(), string }
    }

    /// Returns the root [`DevTreeNode`] object of the device tree (if it exists).
    pub fn root(&self) -> (r: Result<Option<DevTreeNode<'_, 'dt>>, DevTreeError>)
        ensures
            match r {
                Ok(Some(node)) => spec_root(self@) == Ok::<Option<NodeView>, DevTreeError>(
                    Some(node@),
                ) && node.blob() == self@,
                Ok(None) => spec_root(self@) == Ok::<Option<NodeView>, DevTreeError>(None),
                Err(e) => spec_root(self@) == Err::<Option<NodeView>, DevTreeError>(e),
            },
    {
        let mut iter = self.nodes();
        iter.next()
    }

    /// Returns the node that `path` leads to from the root: the names of the nodes below
    /// the root, from the root's child down.
    pub fn node_at_path(&self, path: &[&str]) -> (r: Result<
        Option<DevTreeNode<'_, 'dt>>,
        DevTreeError,
    >)
        ensures
            match r {
                Ok(Some(node)) => spec_root(self@) matches Ok(Some(root)) && spec_node_at_path(
                    self@,
                    root,
                    path@,
                ) == Ok::<Option<NodeView>, DevTreeError>(Some(node@)) && node.blob() == self@,
                Ok(None) => spec_root(self@) == Ok::<Option<NodeView>, DevTreeError>(None) || (
                spec_root(self@) matches Ok(Some(root)) && spec_node_at_path(self@, root, path@)
                    == Ok::<Option<NodeView>, DevTreeError>(None)),
                Err(e) => spec_root(self@) == Err::<Option<NodeView>, DevTreeError>(e) || (
                spec_root(self@) matches Ok(Some(root)) && spec_node_at_path(self@, root, path@)
                    == Err::<Option<NodeView>, DevTreeError>(e)),
            },
    {
        let root = match self.root() {
            Ok(Some(root)) => root,
            Ok(None) => {
                return Ok(None);
            },
            Err(e) => {
                return Err(e);
            },
        };
        let mut node = root;
        let mut i: usize = 0;
        proof {
            assert(path@.subrange(0, path@.len() as int) == path@);
        }
        while i < path.len()
            invariant
                i <= path@.len(),
                node.blob() == self@,
                spec_root(self@) == Ok::<Option<NodeView>, DevTreeError>(Some(root@)),
                spec_node_at_path(self@, node@, path@.subrange(i as int, path@.len() as int))
                    == spec_node_at_path(self@, root@, path@),
            decreases path@.len() - i,
        {
            let ghost rest = path@.subrange(i as int, path@.len() as int);
            proof {
                assert(rest[0] == path@[i as int]);
                assert(rest.subrange(1, rest.len() as int) == path@.subrange(
                    i + 1,
                    path@.len() as int,
                ));
            }
            match node.child_by_name(path[i]) {
                Ok(Some(child)) => {
                    node = child;
                },
                Ok(None) => {
                    return Ok(None);
                },
                Err(e) => {
                    return Err(e);
                },
            }
            i += 1;
        }
        proof {
            assert(path@.subrange(i as int, path@.len() as int).len() == 0);
        }
        Ok(Some(node))
    }

    pub fn buf(&self) -> (b: &'dt [u8])
        ensures
            b@ == self@,
            spec_valid_blob(b@),
    {
        proof {
            use_type_invariant(self);
        }
        self.buf
    }
}

/// Tells whether two slices hold the same bytes.
pub fn same_bytes(a: &[u8], b: &[u8]) -> (r: bool)
    ensures
        r == (a@ == b@),
{
    if a.len() != b.len() {
        return false;
    }
    let mut i: usize = 0;
    while i < a.len()
        invariant
            i <= a@.len(),
            a@.len() == b@.len(),
            forall|j: int| 0 <= j < i ==> a@[j] == b@[j],
        decreases a@.len() - i,
    {
        if a[i] != b[i] {
            return false;
        }
        i += 1;
    }
    assert(a@ =~= b@);
    true
}

/// Two handles are equal when their blobs hold the same bytes.
impl<'dt> PartialEq for DevTree<'dt> {
    fn eq(&self, other: &Self) -> (r: bool) {
        same_bytes(self.buf, other.buf)
    }
}

impl<'dt> PartialEqSpecImpl for DevTree<'dt> {
    open spec fn obeys_eq_spec() -> bool {
        true
    }

    open spec fn eq_spec(&self, other: &Self) -> bool {
        self@ == other@
    }
}

/// A blob that is well formed is accepted wherever it lies at a multiple of four, and the
/// handle then reports the length of the blob as its total size.
pub proof fn lemma_valid_blob_opens(buf: Seq<u8>, addr: int)
    requires
        spec_valid_blob(buf),
        spec_is_aligned(addr),
    ensures
        spec_open_error(buf, addr) is None,
        spec_be_u32(buf, 4) == buf.len(),
{
}

/// The errors of `DevTree::new`, each with the buffers that it is returned for: a buffer
/// that does not start at a multiple of four is an `InvalidParameter`; one that starts
/// with another word than the magic number an `InvalidMagicNumber`; one that is shorter
/// or longer than its header says a `ParseError`.
pub proof fn lemma_open_errors(buf: Seq<u8>, addr: int)
    ensures
        !spec_is_aligned(addr) ==> spec_open_error(buf, addr) matches Some(
            DevTreeError::InvalidParameter(_),
        ),
        spec_is_aligned(addr) && buf.len() >= 4 && spec_be_u32(buf, 0) != FDT_MAGIC ==> spec_open_error(
            buf,
            addr,
        ) == Some(DevTreeError::InvalidMagicNumber),
        spec_is_aligned(addr) && buf.len() >= 8 && spec_be_u32(buf, 0) == FDT_MAGIC && spec_be_u32(
            buf,
            4,
        ) != buf.len() ==> spec_open_error(buf, addr) == Some(DevTreeError::ParseError),
        spec_open_error(buf, addr) is None ==> spec_valid_blob(buf) && spec_is_aligned(addr),
{
    assert(buf.len() >= 8 ==> 0 <= spec_be_u32(buf, 4) < 0x1_0000_0000);
}

} // verus!
