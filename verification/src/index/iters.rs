//! Iterators over the records of an index.
use crate::common::prop::{prop_is_compatible, spec_is_compatible, PropReader};
use crate::index::arena::spec_words;
use crate::index::item::DevTreeIndexItem;
use crate::index::model::{
    lemma_links_forward, spec_first_child, spec_next_dfs, spec_next_link, spec_next_sibling,
    NodeModel,
};
use crate::index::node::{lemma_index_records, DevTreeIndexNode};
use crate::index::prop::DevTreeIndexProp;
use crate::index::tree::DevTreeIndex;
use vstd::prelude::*;
use vstd::std_specs::cmp::PartialEqSpecImpl;
use vstd::string::StringSliceAdditionalSpecFns;

verus! {

/// The state of a walk over an index.
pub struct IndexIterState {
    /// The number of the node that the walk stands at; `None` once the walk has ended.
    pub node: Option<int>,
    /// The number of the next property of that node.
    pub prop_idx: int,
    /// Whether the node that the walk started at has been handed out.
    pub initial_node_returned: bool,
}

/// An item of an index: the node of a number, or the property of a number of such a node.
pub enum IndexItemView {
    Node(int),
    Prop(int, int),
}

/// One step of a walk over an index.
pub struct IndexStep {
    pub item: Option<IndexItemView>,
    pub state: IndexIterState,
}

/// The step of a walk over the tree `ns` from the state `st`: the node that the walk
/// starts at, unless it was handed out; then the properties of the node it stands at, one
/// by one; then the node that follows in the order of the blob.
pub open spec fn spec_index_next(ns: Seq<NodeModel>, st: IndexIterState) -> IndexStep {
    match st.node {
        None => IndexStep { item: None, state: st },
        Some(i) => if !st.initial_node_returned {
            IndexStep {
                item: Some(IndexItemView::Node(i)),
                state: IndexIterState { initial_node_returned: true, ..st },
            }
        } else if 0 <= st.prop_idx < ns[i].props.len() {
            IndexStep {
                item: Some(IndexItemView::Prop(i, st.prop_idx)),
                state: IndexIterState { prop_idx: st.prop_idx + 1, ..st },
            }
        } else {
            IndexStep {
                item: match spec_next_dfs(ns, i) {
                    Some(k) => Some(IndexItemView::Node(k)),
                    None => None,
                },
                state: IndexIterState {
                    node: spec_next_dfs(ns, i),
                    prop_idx: 0,
                    initial_node_returned: true,
                },
            }
        },
    }
}

/// The number of nodes from the node that a walk stands at to the end of the row.
pub open spec fn spec_nodes_left(ns: Seq<NodeModel>, st: IndexIterState) -> int {
    match st.node {
        Some(i) => if 0 <= i < ns.len() {
            ns.len() - i
        } else {
            0
        },
        None => 0,
    }
}

/// The number of items that the node a walk stands at still gives: itself, unless it was
/// handed out, and those of its properties that are left.
pub open spec fn spec_items_left(ns: Seq<NodeModel>, st: IndexIterState) -> int {
    match st.node {
        Some(i) => (if st.initial_node_returned {
            0int
        } else {
            1int
        }) + (if 0 <= st.prop_idx < ns[i].props.len() {
            ns[i].props.len() - st.prop_idx
        } else {
            0
        }),
        None => 0,
    }
}

/// Tells whether a walk in the state `st` stands at a node of `ns`, or has ended.
pub open spec fn spec_index_state_wf(ns: Seq<NodeModel>, st: IndexIterState) -> bool {
    &&& 0 <= st.prop_idx
    &&& st.node matches Some(i) ==> 0 <= i < ns.len()
}

/// Tells whether the walk has come closer to its end from `st` to `next`.
pub open spec fn spec_index_closer(ns: Seq<NodeModel>, st: IndexIterState, next: IndexIterState) -> bool {
    &&& 0 <= spec_nodes_left(ns, next) <= spec_nodes_left(ns, st)
    &&& 0 <= spec_items_left(ns, next)
    &&& spec_nodes_left(ns, next) == spec_nodes_left(ns, st) ==> spec_items_left(ns, next)
        < spec_items_left(ns, st)
}

/// A step that hands out an item brings the walk closer to its end.
pub proof fn lemma_index_next(ns: Seq<NodeModel>, st: IndexIterState)
    requires
        spec_index_state_wf(ns, st),
    ensures
        spec_index_state_wf(ns, spec_index_next(ns, st).state),
        spec_index_next(ns, st).item is Some ==> spec_index_closer(
            ns,
            st,
            spec_index_next(ns, st).state,
        ),
        spec_index_next(ns, st).item matches Some(IndexItemView::Node(k)) ==> 0 <= k < ns.len()
            && spec_index_next(ns, st).state.node == Some(k) && spec_index_next(
            ns,
            st,
        ).state.initial_node_returned,
        spec_index_next(ns, st).item matches Some(IndexItemView::Prop(k, q)) ==> 0 <= k < ns.len()
            && 0 <= q < ns[k].props.len() && st.node == Some(k),
        spec_index_next(ns, st).item is None ==> spec_index_next(ns, st).state.node is None,
{
    match st.node {
        Some(i) => {
            lemma_links_forward(ns, i);
        },
        None => {},
    }
}

/// The step of a walk that looks for the next node: properties are passed over.
pub open spec fn spec_index_next_node(ns: Seq<NodeModel>, st: IndexIterState) -> IndexStep
    decreases spec_nodes_left(ns, st), spec_items_left(ns, st),
{
    let step = spec_index_next(ns, st);
    match step.item {
        Some(IndexItemView::Prop(_, _)) => if spec_index_closer(ns, st, step.state) {
            spec_index_next_node(ns, step.state)
        } else {
            step
        },
        _ => step,
    }
}

/// The step of a walk that looks for the next property: nodes are passed over.
pub open spec fn spec_index_next_prop(ns: Seq<NodeModel>, st: IndexIterState) -> IndexStep
    decreases spec_nodes_left(ns, st), spec_items_left(ns, st),
{
    let step = spec_index_next(ns, st);
    match step.item {
        Some(IndexItemView::Node(_)) => if spec_index_closer(ns, st, step.state) {
            spec_index_next_prop(ns, step.state)
        } else {
            step
        },
        _ => step,
    }
}

/// The step of a walk that looks for the next property of the node it stands at: it takes
/// one item, and returns nothing where that item is a node.
pub open spec fn spec_index_next_node_prop(ns: Seq<NodeModel>, st: IndexIterState) -> IndexStep {
    let step = spec_index_next(ns, st);
    match step.item {
        Some(IndexItemView::Node(_)) => IndexStep { item: None, state: step.state },
        _ => step,
    }
}

/// The step of a walk over siblings: the node that the walk stands at, and from there to
/// its next sibling.
pub open spec fn spec_index_next_sibling(ns: Seq<NodeModel>, st: IndexIterState) -> IndexStep {
    match st.node {
        None => IndexStep { item: None, state: st },
        Some(i) => IndexStep {
            item: Some(IndexItemView::Node(i)),
            state: IndexIterState { node: spec_next_sibling(ns, i), ..st },
        },
    }
}

/// Tells whether the property number `q` of the node number `i` of the tree `ns` in `blob`
/// is named "compatible" and holds `s` among the strings of its value.
pub open spec fn spec_index_prop_compatible(
    blob: Seq<u8>,
    ns: Seq<NodeModel>,
    i: int,
    q: int,
    s: Seq<u8>,
) -> Result<bool, crate::error::DevTreeError> {
    spec_is_compatible(
        blob,
        ns[i].props[q].name_offset,
        blob.subrange(
            ns[i].props[q].value_start,
            ns[i].props[q].value_start + ns[i].props[q].value_len,
        ),
        s,
    )
}

/// The walk over the properties that follow the state `st`, up to the first that is
/// compatible with `s`: the result is the node that holds it. The walk ends with nothing
/// at a property that cannot be read.
pub open spec fn spec_index_scan_compatible(
    blob: Seq<u8>,
    ns: Seq<NodeModel>,
    st: IndexIterState,
    s: Seq<u8>,
) -> IndexStep
    decreases spec_nodes_left(ns, st), spec_items_left(ns, st),
{
    let step = spec_index_next_prop(ns, st);
    match step.item {
        Some(IndexItemView::Prop(i, q)) => match spec_index_prop_compatible(blob, ns, i, q, s) {
            Err(_) => IndexStep { item: None, state: step.state },
            Ok(true) => IndexStep { item: Some(IndexItemView::Node(i)), state: step.state },
            Ok(false) => if spec_index_closer(ns, st, step.state) {
                spec_index_scan_compatible(blob, ns, step.state, s)
            } else {
                IndexStep { item: None, state: step.state }
            },
        },
        _ => IndexStep { item: None, state: step.state },
    }
}

/// The step of a walk that looks for the next node that is compatible with `s`: it goes
/// to the next node, and from there to the first property that is compatible with `s`.
pub open spec fn spec_index_next_compatible(
    blob: Seq<u8>,
    ns: Seq<NodeModel>,
    st: IndexIterState,
    s: Seq<u8>,
) -> IndexStep {
    let first = spec_index_next_node(ns, st);
    match first.item {
        None => first,
        Some(_) => spec_index_scan_compatible(blob, ns, first.state, s),
    }
}

/// The steps that look for a node or a property bring the walk closer to its end when
/// they hand out an item.
pub proof fn lemma_index_next_node(ns: Seq<NodeModel>, st: IndexIterState)
    requires
        spec_index_state_wf(ns, st),
    ensures
        spec_index_state_wf(ns, spec_index_next_node(ns, st).state),
        spec_index_next_node(ns, st).item is Some ==> spec_index_closer(
            ns,
            st,
            spec_index_next_node(ns, st).state,
        ),
        spec_index_next_node(ns, st).item matches Some(item) ==> item is Node,
    decreases spec_nodes_left(ns, st), spec_items_left(ns, st),
{
    lemma_index_next(ns, st);
    let step = spec_index_next(ns, st);
    if step.item matches Some(IndexItemView::Prop(_, _)) {
        lemma_index_next_node(ns, step.state);
    }
}

pub proof fn lemma_index_next_prop(ns: Seq<NodeModel>, st: IndexIterState)
    requires
        spec_index_state_wf(ns, st),
    ensures
        spec_index_state_wf(ns, spec_index_next_prop(ns, st).state),
        spec_index_next_prop(ns, st).item is Some ==> spec_index_closer(
            ns,
            st,
            spec_index_next_prop(ns, st).state,
        ),
        spec_index_next_prop(ns, st).item matches Some(item) ==> item is Prop,
    decreases spec_nodes_left(ns, st), spec_items_left(ns, st),
{
    lemma_index_next(ns, st);
    let step = spec_index_next(ns, st);
    if step.item matches Some(IndexItemView::Node(_)) {
        lemma_index_next_prop(ns, step.state);
    }
}

/// Tells whether `r`, handed out by a walk over `index`, is the item `expected`.
pub open spec fn index_item_is(
    r: Option<DevTreeIndexItem>,
    index: &DevTreeIndex,
    expected: Option<IndexItemView>,
) -> bool {
    match r {
        Some(item) => expected == Some(item@) && item.spec_index() == index,
        None => expected is None,
    }
}

/// As `index_item_is`, for a node.
pub open spec fn index_node_is(
    r: Option<DevTreeIndexNode>,
    index: &DevTreeIndex,
    expected: Option<IndexItemView>,
) -> bool {
    match r {
        Some(node) => expected == Some(IndexItemView::Node(node@)) && node.spec_index() == index,
        None => expected is None,
    }
}

/// As `index_item_is`, for a property.
pub open spec fn index_prop_is(
    r: Option<DevTreeIndexProp>,
    index: &DevTreeIndex,
    expected: Option<IndexItemView>,
) -> bool {
    match r {
        Some(prop) => expected == Some(IndexItemView::Prop(prop@.0, prop@.1))
            && prop.spec_index() == index,
        None => expected is None,
    }
}

/// An iterator over the items of an index.
#[derive(Clone, Copy)]
pub struct DevTreeIndexIter<'a, 'i: 'a, 'dt: 'i> {
    index: &'a DevTreeIndex<'i, 'dt>,
    node: Option<DevTreeIndexNode<'a, 'i, 'dt>>,
    prop_idx: usize,
    initial_node_returned: bool,
}

impl<'a, 'i: 'a, 'dt: 'i> DevTreeIndexIter<'a, 'i, 'dt> {
    /// The state of the walk.
    pub closed spec fn view(self) -> IndexIterState {
        IndexIterState {
            node: match self.node {
                Some(node) => Some(node@),
                None => None,
            },
            prop_idx: self.prop_idx as int,
            initial_node_returned: self.initial_node_returned,
        }
    }

    /// The index that is walked.
    pub closed spec fn spec_index(self) -> &'a DevTreeIndex<'i, 'dt> {
        self.index
    }

    /// The nodes of the index that is walked.
    pub open spec fn nodes(self) -> Seq<NodeModel> {
        self.spec_index()@
    }

    /// The node that the walk stands at is a node of the index that is walked.
    #[verifier::type_invariant]
    pub closed spec fn wf(self) -> bool {
        &&& self.node matches Some(node) ==> node.spec_index() == self.index && node.wf()
        &&& self.index.wf()
    }

    /// The walk over the whole of `index`, from its root.
    pub fn new(index: &'a DevTreeIndex<'i, 'dt>) -> (r: Self)
        ensures
            r@ == (IndexIterState { node: Some(0), prop_idx: 0, initial_node_returned: false }),
            r.spec_index() == index,
    {
        Self::from_node_include(index.root())
    }

    /// A walk over `index` that has ended.
    pub fn new_dead_iter(index: &'a DevTreeIndex<'i, 'dt>) -> (r: Self)
        ensures
            r@ == (IndexIterState { node: None, prop_idx: 0, initial_node_returned: false }),
            r.spec_index() == index,
    {
        proof {
            use_type_invariant(index);
        }
        DevTreeIndexIter { index, node: None, prop_idx: 0, initial_node_returned: false }
    }

    /// Create an iterator from the current node.
    ///
    /// The current node will be returned by the iterator.
    pub fn from_node_include(node: DevTreeIndexNode<'a, 'i, 'dt>) -> (r: Self)
        ensures
            r@ == (IndexIterState {
                node: Some(node@),
                prop_idx: 0,
                initial_node_returned: false,
            }),
            r.spec_index() == node.spec_index(),
    {
        proof {
            use_type_invariant(&node);
        }
        Self { index: node.index(), initial_node_returned: false, node: Some(node), prop_idx: 0 }
    }

    /// Create an iterator from what follows the current node.
    pub fn from_node(node: DevTreeIndexNode<'a, 'i, 'dt>) -> (r: Self)
        ensures
            r@ == (IndexIterState {
                node: Some(node@),
                prop_idx: 0,
                initial_node_returned: true,
            }),
            r.spec_index() == node.spec_index(),
    {
        proof {
            use_type_invariant(&node);
        }
        Self { index: node.index(), initial_node_returned: true, node: Some(node), prop_idx: 0 }
    }

    pub fn index(&self) -> (r: &'a DevTreeIndex<'i, 'dt>)
        ensures
            r == self.spec_index(),
    {
        self.index
    }

    /// Marks the node that the walk started at as handed out.
    pub(crate) fn set_returned(&mut self)
        ensures
            final(self).spec_index() == old(self).spec_index(),
            final(self)@ == (IndexIterState { initial_node_returned: true, ..old(self)@ }),
    {
        proof {
            use_type_invariant(&*self);
        }
        *self = DevTreeIndexIter {
            index: self.index,
            node: self.node,
            prop_idx: self.prop_idx,
            initial_node_returned: true,
        };
    }

    /// The state of the walk is one of the index that is walked.
    proof fn lemma_state(self)
        requires
            self.wf(),
        ensures
            spec_index_state_wf(self.nodes(), self@),
            self.spec_index().wf(),
    {
    }

    pub fn next_sibling(&mut self) -> (r: Option<DevTreeIndexNode<'a, 'i, 'dt>>)
        ensures
            final(self).spec_index() == old(self).spec_index(),
            index_node_is(
                r,
                old(self).spec_index(),
                spec_index_next_sibling(old(self).nodes(), old(self)@).item,
            ),
            final(self)@ == spec_index_next_sibling(old(self).nodes(), old(self)@).state,
    {
        proof {
            use_type_invariant(&*self);
        }
        match self.node {
            Some(node) => {
                let next = node.next_sibling();
                proof {
                    match next {
                        Some(n) => {
                            use_type_invariant(&n);
                        },
                        None => {},
                    }
                }
                *self = DevTreeIndexIter {
                    index: self.index,
                    node: next,
                    prop_idx: self.prop_idx,
                    initial_node_returned: self.initial_node_returned,
                };
                Some(node)
            },
            None => None,
        }
    }

    pub fn next_devtree_item(&mut self) -> (r: Option<DevTreeIndexItem<'a, 'i, 'dt>>)
        ensures
            final(self).spec_index() == old(self).spec_index(),
            index_item_is(
                r,
                old(self).spec_index(),
                spec_index_next(old(self).nodes(), old(self)@).item,
            ),
            final(self)@ == spec_index_next(old(self).nodes(), old(self)@).state,
    {
        proof {
            use_type_invariant(&*self);
        }
        let index = self.index;
        match self.node {
            None => None,
            Some(cur_node) => {
                // Check if we've returned the first current node.
                if !self.initial_node_returned {
                    *self = DevTreeIndexIter {
                        index,
                        node: Some(cur_node),
                        prop_idx: self.prop_idx,
                        initial_node_returned: true,
                    };
                    return Some(DevTreeIndexItem::Node(cur_node));
                }
                let record: usize = cur_node.record();
                proof {
                    use_type_invariant(&cur_node);
                    lemma_index_records(index.blob(), index.arena(), index@, cur_node@);
                }
                let num_props: usize = index.word(record + 5) as usize;
                // First iterate through any properties if there are some available.
                if self.prop_idx < num_props {
                    let prop = DevTreeIndexProp::new(
                        index,
                        record,
                        record + 6 + 3 * self.prop_idx,
                        Ghost(cur_node@),
                        Ghost(self.prop_idx as int),
                    );
                    *self = DevTreeIndexIter {
                        index,
                        node: Some(cur_node),
                        prop_idx: self.prop_idx + 1,
                        initial_node_returned: true,
                    };
                    return Some(DevTreeIndexItem::Prop(prop));
                }
                // Otherwise move on to the next node.
                let next = cur_node.next_dfs();
                proof {
                    match next {
                        Some(n) => {
                            use_type_invariant(&n);
                        },
                        None => {},
                    }
                }
                *self = DevTreeIndexIter { index, node: next, prop_idx: 0, initial_node_returned: true };
                match next {
                    Some(node) => Some(DevTreeIndexItem::Node(node)),
                    None => None,
                }
            },
        }
    }

    pub fn next_prop(&mut self) -> (r: Option<DevTreeIndexProp<'a, 'i, 'dt>>)
        ensures
            final(self).spec_index() == old(self).spec_index(),
            index_prop_is(
                r,
                old(self).spec_index(),
                spec_index_next_prop(old(self).nodes(), old(self)@).item,
            ),
            final(self)@ == spec_index_next_prop(old(self).nodes(), old(self)@).state,
    {
        let ghost ns = self.nodes();
        let ghost start = self@;
        loop
            invariant
                self.spec_index() == old(self).spec_index(),
                ns == old(self).nodes(),
                start == old(self)@,
                spec_index_next_prop(ns, self@) == spec_index_next_prop(ns, start),
            decreases spec_nodes_left(ns, self@), spec_items_left(ns, self@),
        {
            proof {
                use_type_invariant(&*self);
                self.lemma_state();
                lemma_index_next(ns, self@);
            }
            match self.next_devtree_item() {
                Some(DevTreeIndexItem::Prop(prop)) => {
                    return Some(prop);
                },
                // Continue if a new node.
                Some(DevTreeIndexItem::Node(_)) => {},
                None => {
                    return None;
                },
            }
        }
    }

    pub fn next_node(&mut self) -> (r: Option<DevTreeIndexNode<'a, 'i, 'dt>>)
        ensures
            final(self).spec_index() == old(self).spec_index(),
            index_node_is(
                r,
                old(self).spec_index(),
                spec_index_next_node(old(self).nodes(), old(self)@).item,
            ),
            final(self)@ == spec_index_next_node(old(self).nodes(), old(self)@).state,
    {
        let ghost ns = self.nodes();
        let ghost start = self@;
        loop
            invariant
                self.spec_index() == old(self).spec_index(),
                ns == old(self).nodes(),
                start == old(self)@,
                spec_index_next_node(ns, self@) == spec_index_next_node(ns, start),
            decreases spec_nodes_left(ns, self@), spec_items_left(ns, self@),
        {
            proof {
                use_type_invariant(&*self);
                self.lemma_state();
                lemma_index_next(ns, self@);
            }
            match self.next_devtree_item() {
                Some(DevTreeIndexItem::Node(node)) => {
                    return Some(node);
                },
                // Continue if a new prop.
                Some(DevTreeIndexItem::Prop(_)) => {},
                None => {
                    return None;
                },
            }
        }
    }

    pub fn next_node_prop(&mut self) -> (r: Option<DevTreeIndexProp<'a, 'i, 'dt>>)
        ensures
            final(self).spec_index() == old(self).spec_index(),
            index_prop_is(
                r,
                old(self).spec_index(),
                spec_index_next_node_prop(old(self).nodes(), old(self)@).item,
            ),
            final(self)@ == spec_index_next_node_prop(old(self).nodes(), old(self)@).state,
    {
        match self.next_devtree_item() {
            // Return if a new node or an EOF.
            Some(DevTreeIndexItem::Prop(prop)) => Some(prop),
            _ => None,
        }
    }

    pub fn next_compatible_node(&mut self, string: &str) -> (r: Option<
        DevTreeIndexNode<'a, 'i, 'dt>,
    >)
        ensures
            final(self).spec_index() == old(self).spec_index(),
            index_node_is(
                r,
                old(self).spec_index(),
                spec_index_next_compatible(
                    old(self).spec_index().blob(),
                    old(self).nodes(),
                    old(self)@,
                    string.spec_bytes(),
                ).item,
            ),
            final(self)@ == spec_index_next_compatible(
                old(self).spec_index().blob(),
                old(self).nodes(),
                old(self)@,
                string.spec_bytes(),
            ).state,
    {
        let ghost ns = self.nodes();
        let ghost blob = self.spec_index().blob();
        let ghost wanted = string.spec_bytes();
        // If there is another node, advance our iterator to that node.
        if self.next_node().is_none() {
            return None;
        }
        let ghost start = self@;
        // Iterate through all remaining properties in the tree looking for the compatible
        // string.
        loop
            invariant
                self.spec_index() == old(self).spec_index(),
                ns == old(self).nodes(),
                blob == old(self).spec_index().blob(),
                wanted == string.spec_bytes(),
                spec_index_next_node(ns, old(self)@).item is Some,
                start == spec_index_next_node(ns, old(self)@).state,
                spec_index_scan_compatible(blob, ns, self@, wanted) == spec_index_scan_compatible(
                    blob,
                    ns,
                    start,
                    wanted,
                ),
            decreases spec_nodes_left(ns, self@), spec_items_left(ns, self@),
        {
            proof {
                use_type_invariant(&*self);
                self.lemma_state();
                lemma_index_next_prop(ns, self@);
            }
            match self.next_prop() {
                Some(prop) => {
                    proof {
                        prop.lemma_view();
                    }
                    match prop_is_compatible(&prop, string) {
                        Ok(true) => {
                            return Some(prop.node());
                        },
                        Ok(false) => {},
                        Err(_) => {
                            return None;
                        },
                    }
                },
                None => {
                    return None;
                },
            }
        }
    }
}

/// An iterator over a node and its later siblings.
#[derive(Clone, Copy, PartialEq)]
pub struct DevTreeIndexNodeSiblingIter<'a, 'i: 'a, 'dt: 'i>(pub DevTreeIndexIter<'a, 'i, 'dt>);

impl<'a, 'i: 'a, 'dt: 'i> DevTreeIndexNodeSiblingIter<'a, 'i, 'dt> {
    pub fn next(&mut self) -> (r: Option<DevTreeIndexNode<'a, 'i, 'dt>>)
        ensures
            final(self).0.spec_index() == old(self).0.spec_index(),
            index_node_is(
                r,
                old(self).0.spec_index(),
                spec_index_next_sibling(old(self).0.nodes(), old(self).0@).item,
            ),
            final(self).0@ == spec_index_next_sibling(old(self).0.nodes(), old(self).0@).state,
    {
        self.0.next_sibling()
    }
}

/// An iterator over the nodes of an index.
#[derive(Clone, Copy, PartialEq)]
pub struct DevTreeIndexNodeIter<'a, 'i: 'a, 'dt: 'i>(pub DevTreeIndexIter<'a, 'i, 'dt>);

impl<'a, 'i: 'a, 'dt: 'i> DevTreeIndexNodeIter<'a, 'i, 'dt> {
    pub fn next(&mut self) -> (r: Option<DevTreeIndexNode<'a, 'i, 'dt>>)
        ensures
            final(self).0.spec_index() == old(self).0.spec_index(),
            index_node_is(
                r,
                old(self).0.spec_index(),
                spec_index_next_node(old(self).0.nodes(), old(self).0@).item,
            ),
            final(self).0@ == spec_index_next_node(old(self).0.nodes(), old(self).0@).state,
    {
        self.0.next_node()
    }
}

/// An iterator over the properties of an index, of whichever node.
#[derive(Clone, Copy, PartialEq)]
pub struct DevTreeIndexPropIter<'a, 'i: 'a, 'dt: 'i>(pub DevTreeIndexIter<'a, 'i, 'dt>);

impl<'a, 'i: 'a, 'dt: 'i> DevTreeIndexPropIter<'a, 'i, 'dt> {
    pub fn next(&mut self) -> (r: Option<DevTreeIndexProp<'a, 'i, 'dt>>)
        ensures
            final(self).0.spec_index() == old(self).0.spec_index(),
            index_prop_is(
                r,
                old(self).0.spec_index(),
                spec_index_next_prop(old(self).0.nodes(), old(self).0@).item,
            ),
            final(self).0@ == spec_index_next_prop(old(self).0.nodes(), old(self).0@).state,
    {
        self.0.next_prop()
    }
}

/// An iterator over the properties of one node of an index.
#[derive(Clone, Copy, PartialEq)]
pub struct DevTreeIndexNodePropIter<'a, 'i: 'a, 'dt: 'i>(pub DevTreeIndexIter<'a, 'i, 'dt>);

impl<'a, 'i: 'a, 'dt: 'i> DevTreeIndexNodePropIter<'a, 'i, 'dt> {
    pub fn next(&mut self) -> (r: Option<DevTreeIndexProp<'a, 'i, 'dt>>)
        ensures
            final(self).0.spec_index() == old(self).0.spec_index(),
            index_prop_is(
                r,
                old(self).0.spec_index(),
                spec_index_next_node_prop(old(self).0.nodes(), old(self).0@).item,
            ),
            final(self).0@ == spec_index_next_node_prop(old(self).0.nodes(), old(self).0@).state,
    {
        self.0.next_node_prop()
    }
}

/// An iterator over the nodes of an index that hold `string` in their property
/// "compatible".
#[derive(Clone, Copy, PartialEq)]
pub struct DevTreeIndexCompatibleNodeIter<'s, 'a, 'i: 'a, 'dt: 'i> {
    pub iter: DevTreeIndexIter<'a, 'i, 'dt>,
    pub string: &'s str,
}

impl<'s, 'a, 'i: 'a, 'dt: 'i> DevTreeIndexCompatibleNodeIter<'s, 'a, 'i, 'dt> {
    pub fn next(&mut self) -> (r: Option<DevTreeIndexNode<'a, 'i, 'dt>>)
        ensures
            final(self).iter.spec_index() == old(self).iter.spec_index(),
            final(self).string == old(self).string,
            index_node_is(
                r,
                old(self).iter.spec_index(),
                spec_index_next_compatible(
                    old(self).iter.spec_index().blob(),
                    old(self).iter.nodes(),
                    old(self).iter@,
                    old(self).string.spec_bytes(),
                ).item,
            ),
            final(self).iter@ == spec_index_next_compatible(
                old(self).iter.spec_index().blob(),
                old(self).iter.nodes(),
                old(self).iter@,
                old(self).string.spec_bytes(),
            ).state,
    {
        let string: &'s str = self.string;
        self.iter.next_compatible_node(string)
    }
}

/// The step of a walk over what lies below a node, where `stop` is the node behind the
/// subtree of that node: the walk is the walk over the items of the index, up to the
/// node `stop`.
pub open spec fn spec_index_next_below(ns: Seq<NodeModel>, st: IndexIterState, stop: Option<int>) -> IndexStep {
    let step = spec_index_next(ns, st);
    match step.item {
        Some(IndexItemView::Node(k)) => if stop == Some(k) {
            IndexStep {
                item: None,
                state: IndexIterState { node: None, prop_idx: 0, initial_node_returned: true },
            }
        } else {
            step
        },
        _ => step,
    }
}

/// An iterator over the items that lie below a node of an index: its children with their
/// properties, and what lies below them.
#[derive(Clone, Copy)]
pub struct DevTreeIndexDescendantsIter<'a, 'i: 'a, 'dt: 'i> {
    iter: DevTreeIndexIter<'a, 'i, 'dt>,
    stop: Option<DevTreeIndexNode<'a, 'i, 'dt>>,
}

impl<'a, 'i: 'a, 'dt: 'i> DevTreeIndexDescendantsIter<'a, 'i, 'dt> {
    /// The state of the walk.
    pub closed spec fn view(self) -> IndexIterState {
        self.iter@
    }

    /// The index that is walked.
    pub closed spec fn spec_index(self) -> &'a DevTreeIndex<'i, 'dt> {
        self.iter.spec_index()
    }

    /// The node behind the subtree that is walked, if there is one.
    pub closed spec fn stop(self) -> Option<int> {
        match self.stop {
            Some(node) => Some(node@),
            None => None,
        }
    }

    /// The node at which the walk stops is a node of the index that is walked.
    #[verifier::type_invariant]
    pub closed spec fn wf(self) -> bool {
        self.stop matches Some(node) ==> node.spec_index() == self.iter.spec_index() && node.wf()
    }

    /// The walk over what lies below `node`.
    pub fn new(node: DevTreeIndexNode<'a, 'i, 'dt>) -> (r: Self)
        ensures
            r.spec_index() == node.spec_index(),
            r@ == (IndexIterState {
                node: spec_first_child(node.nodes(), node@),
                prop_idx: 0,
                initial_node_returned: false,
            }),
            r.stop() == spec_next_link(node.nodes(), node@),
    {
        let stop = node.next_link();
        proof {
            match stop {
                Some(n) => {
                    use_type_invariant(&n);
                },
                None => {},
            }
        }
        let iter = match node.first_child() {
            Some(child) => DevTreeIndexIter::from_node_include(child),
            None => DevTreeIndexIter::new_dead_iter(node.index()),
        };
        Self { iter, stop }
    }

    pub fn next(&mut self) -> (r: Option<DevTreeIndexItem<'a, 'i, 'dt>>)
        ensures
            final(self).spec_index() == old(self).spec_index(),
            final(self).stop() == old(self).stop(),
            index_item_is(
                r,
                old(self).spec_index(),
                spec_index_next_below(old(self).spec_index()@, old(self)@, old(self).stop()).item,
            ),
            final(self)@ == spec_index_next_below(
                old(self).spec_index()@,
                old(self)@,
                old(self).stop(),
            ).state,
    {
        proof {
            use_type_invariant(&*self);
        }
        let mut iter = self.iter;
        let stop = self.stop;
        let item = iter.next_devtree_item();
        let at_stop: bool = match (item, stop) {
            (Some(DevTreeIndexItem::Node(node)), Some(stop)) => {
                proof {
                    use_type_invariant(&node);
                    use_type_invariant(&stop);
                    lemma_index_records(
                        node.spec_index().blob(),
                        node.spec_index().arena(),
                        node.nodes(),
                        node@,
                    );
                    crate::index::model::lemma_link_words(
                        node.nodes(),
                        spec_words(node.spec_index().arena()).len() as int,
                        Some(node@),
                        Some(stop@),
                    );
                }
                node.record() == stop.record()
            },
            _ => false,
        };
        if at_stop {
            let dead = DevTreeIndexIter::new_dead_iter(iter.index());
            let mut ended = dead;
            ended.set_returned();
            *self = DevTreeIndexDescendantsIter { iter: ended, stop };
            None
        } else {
            *self = DevTreeIndexDescendantsIter { iter, stop };
            item
        }
    }
}

/// Two walks are equal when they are in the same state on indexes that hold the same
/// records of blobs that hold the same bytes.
impl<'a, 'i: 'a, 'dt: 'i> PartialEq for DevTreeIndexIter<'a, 'i, 'dt> {
    fn eq(&self, other: &Self) -> (r: bool) {
        proof {
            use_type_invariant(self);
            use_type_invariant(other);
        }
        let same_node: bool = match (self.node, other.node) {
            (Some(l), Some(r)) => l == r,
            (None, None) => self.index.same_as(other.index),
            _ => false,
        };
        same_node && self.prop_idx == other.prop_idx && self.initial_node_returned
            == other.initial_node_returned
    }
}

impl<'a, 'i: 'a, 'dt: 'i> PartialEqSpecImpl for DevTreeIndexIter<'a, 'i, 'dt> {
    open spec fn obeys_eq_spec() -> bool {
        true
    }

    open spec fn eq_spec(&self, other: &Self) -> bool {
        &&& self@ == other@
        &&& self.spec_index().blob() == other.spec_index().blob()
        &&& self.spec_index().arena() == other.spec_index().arena()
    }
}

} // verus!
