//! The properties that the in-order parser hands out.
use crate::base::iters::{spec_is_begin_node, spec_iter_inv, spec_node_at, DevTreeIter, PropView};
use crate::base::item::DevTreeItem;
use crate::base::node::DevTreeNode;
use crate::base::tree::{same_bytes, DevTree};
use crate::common::prop::PropReader;
use vstd::pervasive::unreached;
use vstd::prelude::*;
use vstd::std_specs::cmp::PartialEqSpecImpl;

verus! {

/// A handle to a [`DevTreeNode`]'s Device Tree Property
#[derive(Clone, Copy)]
pub struct DevTreeProp<'a, 'dt: 'a> {
    parent_iter: DevTreeIter<'a, 'dt>,
    propbuf: &'dt [u8],
    nameoff: usize,
}

/// Tells whether a property can have `parent` as the parser that stands before its node.
pub open spec fn spec_prop_inv(buf: Seq<u8>, prop: PropView) -> bool {
    &&& spec_iter_inv(buf, prop.parent)
    &&& prop.parent.parent is None
    &&& spec_is_begin_node(buf, prop.parent.offset)
}

impl<'a, 'dt: 'a> DevTreeProp<'a, 'dt> {
    /// The property's value and the offset of its name, and the parser as it stands before
    /// the token that opens the property's node.
    pub closed spec fn view(self) -> PropView {
        PropView {
            parent: self.parent_iter@,
            value: self.propbuf@,
            name_offset: self.nameoff as int,
        }
    }

    /// The bytes of the blob that holds the property.
    pub closed spec fn blob(self) -> Seq<u8> {
        self.parent_iter.blob()
    }

    /// The parser of the handle stands before a token that opens a node.
    #[verifier::type_invariant]
    pub open spec fn wf(self) -> bool {
        spec_prop_inv(self.blob(), self@)
    }

    pub(crate) fn new(parent_iter: DevTreeIter<'a, 'dt>, propbuf: &'dt [u8], nameoff: usize) -> (prop:
        Self)
        requires
            parent_iter@.parent is None,
            spec_is_begin_node(parent_iter.blob(), parent_iter@.offset),
        ensures
            prop@ == (PropView {
                parent: parent_iter@,
                value: propbuf@,
                name_offset: nameoff as int,
            }),
            prop.blob() == parent_iter.blob(),
    {
        proof {
            use_type_invariant(&parent_iter);
        }
        Self { parent_iter, propbuf, nameoff }
    }
}

impl<'r, 'dt: 'r> PropReader<'dt> for DevTreeProp<'r, 'dt> {
    type NodeType = DevTreeNode<'r, 'dt>;

    closed spec fn spec_propbuf(&self) -> Seq<u8> {
        self.propbuf@
    }

    closed spec fn spec_nameoff(&self) -> int {
        self.nameoff as int
    }

    closed spec fn spec_blob(&self) -> Seq<u8> {
        self.parent_iter.blob()
    }

    open spec fn node_is(&self, node: Self::NodeType) -> bool {
        &&& node@ == spec_node_at(self.blob(), self@.parent.offset, self@.parent.depth + 1)
        &&& node.blob() == self.blob()
    }

    fn propbuf(&self) -> (r: &'dt [u8]) {
        self.propbuf
    }

    fn nameoff(&self) -> (r: usize) {
        self.nameoff
    }

    fn fdt(&self) -> (r: &DevTree<'dt>) {
        self.parent_iter.fdt()
    }

    /// Returns the node which this property is attached to
    fn node(&self) -> (r: DevTreeNode<'r, 'dt>) {
        proof {
            use_type_invariant(self);
        }
        // We look back in the tree - our parent node is behind us.
        let mut iter = self.parent_iter;
        match iter.next_item() {
            Ok(Some(DevTreeItem::Node(node))) => node,
            _ => unreached(),
        }
    }
}

impl<'a, 'dt: 'a> DevTreeProp<'a, 'dt> {
    /// The view of the property agrees with what the readers of its value go by.
    pub proof fn lemma_view(self)
        ensures
            self.spec_propbuf() == self@.value,
            self.spec_nameoff() == self@.name_offset,
            self.spec_blob() == self.blob(),
    {
    }
}

/// Two handles are equal when they hold the same value and name offset and belong to
/// nodes at the same place of blobs that hold the same bytes.
impl<'a, 'dt: 'a> PartialEq for DevTreeProp<'a, 'dt> {
    fn eq(&self, other: &Self) -> (r: bool) {
        self.parent_iter == other.parent_iter && self.nameoff == other.nameoff && same_bytes(
            self.propbuf,
            other.propbuf,
        )
    }
}

impl<'a, 'dt: 'a> PartialEqSpecImpl for DevTreeProp<'a, 'dt> {
    open spec fn obeys_eq_spec() -> bool {
        true
    }

    open spec fn eq_spec(&self, other: &Self) -> bool {
        self@ == other@ && self.blob() == other.blob()
    }
}

} // verus!
