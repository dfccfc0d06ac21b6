//! The properties of an index.
use crate::base::tree::DevTree;
use crate::common::prop::PropReader;
use crate::index::arena::spec_words;
use crate::index::model::{NodeModel, PropModel};
use crate::index::node::{lemma_index_records, DevTreeIndexNode};
use crate::index::tree::DevTreeIndex;
use vstd::prelude::*;

verus! {

/// A wrapper around a device tree property within a [`DevTreeIndex`].
///
/// Most desired methods are available through the [`PropReader`] trait.
#[derive(Clone, Copy)]
pub struct DevTreeIndexProp<'a, 'i: 'a, 'dt: 'i> {
    index: &'a DevTreeIndex<'i, 'dt>,
    /// The word of the work buffer that the record of the owning node starts at.
    node: usize,
    /// The word of the work buffer that the property's record starts at.
    prop: usize,
    id: Ghost<(int, int)>,
}

impl<'a, 'i: 'a, 'dt: 'i> DevTreeIndexProp<'a, 'i, 'dt> {
    /// The number of the owning node in the order of the blob, and the number of the
    /// property among the properties of that node.
    pub closed spec fn view(self) -> (int, int) {
        self.id@
    }

    /// The index that holds the property.
    pub closed spec fn spec_index(self) -> &'a DevTreeIndex<'i, 'dt> {
        self.index
    }

    /// The nodes of the index that holds the property.
    pub open spec fn nodes(self) -> Seq<NodeModel> {
        self.spec_index()@
    }

    /// The property as the tree has it.
    pub open spec fn model(self) -> PropModel {
        self.nodes()[self@.0].props[self@.1]
    }

    pub closed spec fn slots(self) -> (int, int) {
        (self.node as int, self.prop as int)
    }

    /// The handle leads to the record of a property of a node of the index.
    #[verifier::type_invariant]
    pub open spec fn wf(self) -> bool {
        &&& 0 <= self@.0 < self.nodes().len()
        &&& 0 <= self@.1 < self.nodes()[self@.0].props.len()
        &&& self.slots().0 == self.nodes()[self@.0].slot
        &&& self.slots().1 == self.nodes()[self@.0].slot + 6 + 3 * self@.1
        &&& self.spec_index().wf()
    }

    /// The handle to the property number `q` of the node number `id` of `index`.
    pub(crate) fn new(
        index: &'a DevTreeIndex<'i, 'dt>,
        node: usize,
        prop: usize,
        Ghost(id): Ghost<int>,
        Ghost(q): Ghost<int>,
    ) -> (r: Self)
        requires
            0 <= id < index@.len(),
            0 <= q < index@[id].props.len(),
            index@[id].slot == node,
            prop == node + 6 + 3 * q,
        ensures
            r@ == (id, q),
            r.spec_index() == index,
    {
        proof {
            use_type_invariant(index);
        }
        Self { index, node, prop, id: Ghost((id, q)) }
    }

    pub fn index(&self) -> (r: &'a DevTreeIndex<'i, 'dt>)
        ensures
            r == self.spec_index(),
    {
        self.index
    }

    /// What the readers of the property's value go by is what the tree has.
    pub proof fn lemma_view(self)
        ensures
            self.spec_propbuf() == self.spec_index().blob().subrange(
                self.model().value_start,
                self.model().value_start + self.model().value_len,
            ),
            self.spec_nameoff() == self.model().name_offset,
            self.spec_blob() == self.spec_index().blob(),
    {
    }
}

impl<'a, 'i: 'a, 'dt: 'i> PropReader<'dt> for DevTreeIndexProp<'a, 'i, 'dt> {
    type NodeType = DevTreeIndexNode<'a, 'i, 'dt>;

    closed spec fn spec_propbuf(&self) -> Seq<u8> {
        self.index.blob().subrange(
            self.nodes()[self.id@.0].props[self.id@.1].value_start,
            self.nodes()[self.id@.0].props[self.id@.1].value_start + self.nodes()[self.id@.0].props[self.id@.1].value_len,
        )
    }

    closed spec fn spec_nameoff(&self) -> int {
        self.nodes()[self.id@.0].props[self.id@.1].name_offset
    }

    closed spec fn spec_blob(&self) -> Seq<u8> {
        self.index.blob()
    }

    open spec fn node_is(&self, node: Self::NodeType) -> bool {
        &&& node@ == self@.0
        &&& node.spec_index() == self.spec_index()
    }

    fn propbuf(&self) -> (r: &'dt [u8]) {
        proof {
            use_type_invariant(self);
            lemma_index_records(self.index.blob(), self.index.arena(), self.nodes(), self@.0);
            let ns = self.nodes();
            let i = self@.0;
            let q = self@.1;
            assert(spec_words(self.index.arena())[ns[i].slot + 6 + 3 * q] == ns[i].props[q].value_start);
            assert(0 <= ns[i].props[q].value_start);
        }
        let blob: &'dt [u8] = self.index.buf();
        let blob_len: usize = blob.len();
        let start: usize = self.index.word(self.prop) as usize;
        let len: usize = self.index.word(self.prop + 1) as usize;
        &blob[start..start + len]
    }

    fn nameoff(&self) -> (r: usize) {
        proof {
            use_type_invariant(self);
            lemma_index_records(self.index.blob(), self.index.arena(), self.nodes(), self@.0);
            let ns = self.nodes();
            let i = self@.0;
            let q = self@.1;
            assert(spec_words(self.index.arena())[ns[i].slot + 6 + 3 * q] == ns[i].props[q].value_start);
            assert(0 <= ns[i].props[q].value_start);
        }
        let blob_len: usize = self.index.buf().len();
        self.index.word(self.prop + 2) as usize
    }

    fn fdt(&self) -> (r: &DevTree<'dt>) {
        self.index.fdt()
    }

    fn node(&self) -> (r: DevTreeIndexNode<'a, 'i, 'dt>) {
        proof {
            use_type_invariant(self);
        }
        DevTreeIndexNode::new(self.index, self.node, Ghost(self@.0))
    }
}

} // verus!
