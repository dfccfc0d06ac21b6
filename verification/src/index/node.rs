//! The nodes of an index.
use crate::common::prop::{bytes_as_str, spec_decode, str_result_is};
use crate::error::DevTreeError;
use crate::index::arena::{spec_words, NULL_LINK};
use crate::index::iters::{
    DevTreeIndexIter, DevTreeIndexNodePropIter, DevTreeIndexNodeSiblingIter, IndexIterState,
};
use crate::index::model::{
    lemma_link_words, lemma_links_forward, spec_first_child, spec_next_dfs, spec_next_link,
    spec_next_sibling, spec_node_stored, spec_node_wf, spec_tree_wf, NodeModel,
};
use crate::index::tree::{spec_index_wf, DevTreeIndex};
use crate::spec::MAX_NODE_NAME_LEN;
use vstd::prelude::*;
use vstd::std_specs::cmp::PartialEqSpecImpl;
use vstd::string::StringSliceAdditionalSpecFns;

verus! {

/// The facts of an index that the readers of its records go by.
pub proof fn lemma_index_records(blob: Seq<u8>, arena: Seq<u8>, ns: Seq<NodeModel>, i: int)
    requires
        spec_index_wf(blob, arena),
        ns == crate::index::model::spec_index_nodes(
            blob,
            crate::index::arena::spec_word_count(arena.len() as int),
        )->Ok_0,
        0 <= i < ns.len(),
    ensures
        spec_tree_wf(ns),
        spec_node_wf(ns, i),
        spec_node_stored(
            spec_words(arena),
            ns,
            i,
            spec_first_child(ns, i),
            spec_next_link(ns, i),
        ),
        forall|k: int| 0 <= k < ns.len() ==> (#[trigger] ns[k]).end() <= spec_words(arena).len(),
        spec_words(arena).len() * 8 <= usize::MAX,
        0 <= ns[i].name_start,
        0 <= ns[i].name_len < MAX_NODE_NAME_LEN - 1,
        ns[i].name_start + ns[i].name_len <= blob.len(),
        ns[i].parent matches Some(j) ==> 0 <= j < i,
{
    assert forall|k: int| 0 <= k < ns.len() implies (#[trigger] ns[k]).end() <= spec_words(
        arena,
    ).len() by {
        assert(spec_node_stored(
            spec_words(arena),
            ns,
            k,
            spec_first_child(ns, k),
            spec_next_link(ns, k),
        ));
    }
}

/// A handle to a node of an index.
#[derive(Clone, Copy)]
pub struct DevTreeIndexNode<'a, 'i: 'a, 'dt: 'i> {
    index: &'a DevTreeIndex<'i, 'dt>,
    /// The word of the work buffer that the node's record starts at.
    node: usize,
    id: Ghost<int>,
}

impl<'a, 'i: 'a, 'dt: 'i> DevTreeIndexNode<'a, 'i, 'dt> {
    /// The number of the node in the order of the blob.
    pub closed spec fn view(self) -> int {
        self.id@
    }

    /// The index that holds the node.
    pub closed spec fn spec_index(self) -> &'a DevTreeIndex<'i, 'dt> {
        self.index
    }

    /// The nodes of the index that holds the node.
    pub open spec fn nodes(self) -> Seq<NodeModel> {
        self.spec_index()@
    }

    /// The word of the work buffer that the node's record starts at.
    pub closed spec fn slot(self) -> int {
        self.node as int
    }

    /// The handle leads to the record of a node of the index.
    #[verifier::type_invariant]
    pub open spec fn wf(self) -> bool {
        &&& 0 <= self@ < self.nodes().len()
        &&& self.slot() == self.nodes()[self@].slot
        &&& self.spec_index().wf()
    }

    /// The handle to the node number `id` of `index`, whose record starts at the word
    /// `node`.
    pub(crate) fn new(index: &'a DevTreeIndex<'i, 'dt>, node: usize, Ghost(id): Ghost<int>) -> (r:
        Self)
        requires
            0 <= id < index@.len(),
            index@[id].slot == node,
        ensures
            r@ == id,
            r.spec_index() == index,
    {
        proof {
            use_type_invariant(index);
        }
        Self { node, index, id: Ghost(id) }
    }

    pub fn index(&self) -> (r: &'a DevTreeIndex<'i, 'dt>)
        ensures
            r == self.spec_index(),
    {
        self.index
    }

    /// The word that the node's record starts at.
    pub(crate) fn record(&self) -> (r: usize)
        ensures
            r == self.nodes()[self@].slot,
            0 <= self@ < self.nodes().len(),
    {
        proof {
            use_type_invariant(self);
        }
        self.node
    }

    /// The bytes of the node's name.
    pub open spec fn spec_name(self) -> Seq<u8> {
        self.spec_index().blob().subrange(
            self.nodes()[self@].name_start,
            self.nodes()[self@].name_start + self.nodes()[self@].name_len,
        )
    }

    pub fn name(&self) -> (r: Result<&'dt str, DevTreeError>)
        ensures
            str_result_is(r, spec_decode(self.spec_name())),
            self.spec_name().len() < MAX_NODE_NAME_LEN - 1,
    {
        proof {
            use_type_invariant(self);
            lemma_index_records(
                self.index.blob(),
                self.index.arena(),
                self.nodes(),
                self@,
            );
        }
        let blob: &'dt [u8] = self.index.buf();
        let start: usize = self.index.word(self.node + 3) as usize;
        let len: usize = self.index.word(self.node + 4) as usize;
        let blob_len: usize = blob.len();
        bytes_as_str(&blob[start..start + len])
    }

    /// Follows the link number `which` of the node's record: 0 to the parent, 1 to the
    /// first child, 2 to what follows the node.
    fn follow(&self, which: usize, Ghost(target): Ghost<Option<int>>) -> (r: Option<Self>)
        requires
            which == 0 && target == self.nodes()[self@].parent || which == 1 && target
                == spec_first_child(self.nodes(), self@) || which == 2 && target == spec_next_link(
                self.nodes(),
                self@,
            ),
        ensures
            match r {
                Some(node) => target == Some(node@) && node.spec_index() == self.spec_index(),
                None => target is None,
            },
    {
        proof {
            use_type_invariant(self);
            lemma_index_records(
                self.index.blob(),
                self.index.arena(),
                self.nodes(),
                self@,
            );
            lemma_links_forward(self.nodes(), self@);
            lemma_link_words(
                self.nodes(),
                spec_words(self.index.arena()).len() as int,
                target,
                None,
            );
        }
        let link: u64 = self.index.word(self.node + which);
        if link == NULL_LINK {
            None
        } else {
            Some(Self::new(self.index, link as usize, Ghost(target.unwrap())))
        }
    }

    pub fn parent(&self) -> (r: Option<Self>)
        ensures
            match r {
                Some(node) => self.nodes()[self@].parent == Some(node@) && node.spec_index()
                    == self.spec_index(),
                None => self.nodes()[self@].parent is None,
            },
    {
        self.follow(0, Ghost(self.nodes()[self@].parent))
    }

    /// Returns the first child of the node, if it has one.
    pub fn first_child(&self) -> (r: Option<Self>)
        ensures
            match r {
                Some(node) => spec_first_child(self.nodes(), self@) == Some(node@)
                    && node.spec_index() == self.spec_index(),
                None => spec_first_child(self.nodes(), self@) is None,
            },
    {
        self.follow(1, Ghost(spec_first_child(self.nodes(), self@)))
    }

    /// Returns the node behind the subtree of the node, if the record links to one.
    pub fn next_link(&self) -> (r: Option<Self>)
        ensures
            match r {
                Some(node) => spec_next_link(self.nodes(), self@) == Some(node@)
                    && node.spec_index() == self.spec_index(),
                None => spec_next_link(self.nodes(), self@) is None,
            },
    {
        self.follow(2, Ghost(spec_next_link(self.nodes(), self@)))
    }

    /// Returns the property number `idx` of the node, if it has as many.
    pub fn prop(&self, idx: usize) -> (r: Option<crate::index::prop::DevTreeIndexProp<'a, 'i, 'dt>>)
        ensures
            match r {
                Some(prop) => prop@ == (self@, idx as int) && idx < self.nodes()[self@].props.len()
                    && prop.spec_index() == self.spec_index(),
                None => idx >= self.nodes()[self@].props.len(),
            },
    {
        proof {
            use_type_invariant(self);
            lemma_index_records(
                self.index.blob(),
                self.index.arena(),
                self.nodes(),
                self@,
            );
        }
        let num_props: usize = self.index.word(self.node + 5) as usize;
        if idx < num_props {
            Some(
                crate::index::prop::DevTreeIndexProp::new(
                    self.index,
                    self.node,
                    self.node + 6 + 3 * idx,
                    Ghost(self@),
                    Ghost(idx as int),
                ),
            )
        } else {
            None
        }
    }

    /// Returns an iterator over the items that lie below the node: its children with their
    /// properties, and what lies below them.
    pub fn descendants(&self) -> (r: crate::index::iters::DevTreeIndexDescendantsIter<'a, 'i, 'dt>)
        ensures
            r.spec_index() == self.spec_index(),
            r@ == (IndexIterState {
                node: spec_first_child(self.nodes(), self@),
                prop_idx: 0,
                initial_node_returned: false,
            }),
            r.stop() == spec_next_link(self.nodes(), self@),
    {
        crate::index::iters::DevTreeIndexDescendantsIter::new(*self)
    }

    /// Returns the node that follows the node in the order of the blob, if there is one.
    pub fn next_dfs(&self) -> (r: Option<Self>)
        ensures
            match r {
                Some(node) => spec_next_dfs(self.nodes(), self@) == Some(node@)
                    && node.spec_index() == self.spec_index(),
                None => spec_next_dfs(self.nodes(), self@) is None,
            },
    {
        match self.first_child() {
            Some(child) => Some(child),
            None => self.follow(2, Ghost(spec_next_link(self.nodes(), self@))),
        }
    }

    /// Returns the next sibling of the node, if it has one.
    pub fn next_sibling(&self) -> (r: Option<Self>)
        ensures
            match r {
                Some(node) => spec_next_sibling(self.nodes(), self@) == Some(node@)
                    && node.spec_index() == self.spec_index(),
                None => spec_next_sibling(self.nodes(), self@) is None,
            },
    {
        match self.follow(2, Ghost(spec_next_link(self.nodes(), self@))) {
            Some(next) => {
                proof {
                    use_type_invariant(self);
                    use_type_invariant(&next);
                    lemma_index_records(
                        self.index.blob(),
                        self.index.arena(),
                        self.nodes(),
                        self@,
                    );
                    lemma_index_records(
                        self.index.blob(),
                        self.index.arena(),
                        self.nodes(),
                        next@,
                    );
                    lemma_link_words(
                        self.nodes(),
                        spec_words(self.index.arena()).len() as int,
                        self.nodes()[self@].parent,
                        self.nodes()[next@].parent,
                    );
                }
                if self.index.word(next.node) == self.index.word(self.node) {
                    Some(next)
                } else {
                    None
                }
            },
            None => None,
        }
    }

    /// Returns an iterator over the node and its later siblings.
    pub fn siblings(&self) -> (r: DevTreeIndexNodeSiblingIter<'a, 'i, 'dt>)
        ensures
            r.0@ == (IndexIterState {
                node: Some(self@),
                prop_idx: 0,
                initial_node_returned: true,
            }),
            r.0.spec_index() == self.spec_index(),
    {
        DevTreeIndexNodeSiblingIter(DevTreeIndexIter::from_node(*self))
    }

    /// Returns an iterator over the properties of the node.
    pub fn props(&self) -> (r: DevTreeIndexNodePropIter<'a, 'i, 'dt>)
        ensures
            r.0@ == (IndexIterState {
                node: Some(self@),
                prop_idx: 0,
                initial_node_returned: true,
            }),
            r.0.spec_index() == self.spec_index(),
    {
        DevTreeIndexNodePropIter(DevTreeIndexIter::from_node(*self))
    }

    /// Returns the next node behind this one that holds `string` in its property
    /// "compatible", or `None` if none exists.
    pub fn find_next_compatible_node(&self, string: &str) -> (r: Option<Self>)
        ensures
            crate::index::iters::index_node_is(
                r,
                self.spec_index(),
                crate::index::iters::spec_index_next_compatible(
                    self.spec_index().blob(),
                    self.nodes(),
                    IndexIterState { node: Some(self@), prop_idx: 0, initial_node_returned: true },
                    string.spec_bytes(),
                ).item,
            ),
    {
        let mut iter = DevTreeIndexIter::from_node(*self);
        iter.next_compatible_node(string)
    }

    /// Returns an iterator over the children of the node.
    pub fn children(&self) -> (r: DevTreeIndexNodeSiblingIter<'a, 'i, 'dt>)
        ensures
            r.0@ == (IndexIterState {
                node: spec_first_child(self.nodes(), self@),
                prop_idx: 0,
                initial_node_returned: false,
            }),
            r.0.spec_index() == self.spec_index(),
    {
        match self.first_child() {
            Some(child) => DevTreeIndexNodeSiblingIter(DevTreeIndexIter::from_node_include(child)),
            None => DevTreeIndexNodeSiblingIter(DevTreeIndexIter::new_dead_iter(self.index)),
        }
    }

    /// Tells whether two handles lead to the same node of indexes that hold the same
    /// records of blobs that hold the same bytes.
    pub open spec fn same_node(self, other: Self) -> bool {
        &&& self@ == other@
        &&& self.spec_index().blob() == other.spec_index().blob()
        &&& self.spec_index().arena() == other.spec_index().arena()
    }

    /// Returns true if `self` is a parent of the other [`DevTreeIndexNode`]
    pub fn is_parent_of(&self, other: &Self) -> (r: bool)
        ensures
            r == (other.nodes()[other@].parent == Some(self@) && other.spec_index().blob()
                == self.spec_index().blob() && other.spec_index().arena()
                == self.spec_index().arena()),
    {
        match other.parent() {
            Some(parent) => parent == *self,
            None => false,
        }
    }

    /// Returns true if `self` is a sibling of the other [`DevTreeIndexNode`]
    pub fn is_sibling_of(&self, other: &Self) -> (r: bool)
        ensures
            r == (match (other.nodes()[other@].parent, self.nodes()[self@].parent) {
                (Some(p), Some(q)) => p == q && other.spec_index().blob()
                    == self.spec_index().blob() && other.spec_index().arena()
                    == self.spec_index().arena(),
                (None, None) => true,
                _ => false,
            }),
    {
        match (other.parent(), self.parent()) {
            (Some(p), Some(q)) => p == q,
            (None, None) => true,
            _ => false,
        }
    }
}

impl<'a, 'i: 'a, 'dt: 'i> PartialEq for DevTreeIndexNode<'a, 'i, 'dt> {
    fn eq(&self, other: &Self) -> (r: bool) {
        proof {
            use_type_invariant(self);
            use_type_invariant(other);
            if self.index.blob() == other.index.blob() && self.index.arena()
                == other.index.arena() {
                lemma_index_records(
                    self.index.blob(),
                    self.index.arena(),
                    self.nodes(),
                    self@,
                );
                lemma_index_records(
                    self.index.blob(),
                    self.index.arena(),
                    self.nodes(),
                    other@,
                );
                lemma_link_words(
                    self.nodes(),
                    spec_words(self.index.arena()).len() as int,
                    Some(self@),
                    Some(other@),
                );
            }
        }
        self.index.same_as(other.index) && self.node == other.node
    }
}

impl<'a, 'i: 'a, 'dt: 'i> PartialEqSpecImpl for DevTreeIndexNode<'a, 'i, 'dt> {
    open spec fn obeys_eq_spec() -> bool {
        true
    }

    open spec fn eq_spec(&self, other: &Self) -> bool {
        self.same_node(*other)
    }
}

} // verus!
