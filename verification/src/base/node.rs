//! The nodes that the in-order parser hands out.
use crate::base::item::DevTreeItem;
use crate::base::iters::{
    lemma_depth_next, node_result_is, spec_depth_next, spec_next_compatible, spec_node_inv,
    spec_skip_next, DevTreeChildrenIter, DevTreeDescendantsIter, DevTreeIter, DevTreeNodeFilter,
    DevTreeNodePropIter, DevTreeSiblingsAndDescendantsIter, DevTreeSiblingsIter, ItemView,
    IterState, NodeView,
};
use crate::base::tree::same_bytes;
use crate::common::prop::{bytes_as_str, spec_decode, str_result_is};
use crate::error::DevTreeError;
use crate::spec::MAX_NODE_NAME_LEN;
use vstd::prelude::*;
use vstd::std_specs::cmp::PartialEqSpecImpl;
use vstd::string::StringSliceAdditionalSpecFns;

verus! {

/// The first child named `name` that a walk over the children of a node finds from the
/// state `st` on, where the children lie at the depth `target`.
pub open spec fn spec_child_named(
    buf: Seq<u8>,
    st: IterState,
    target: int,
    ended: bool,
    name: Seq<u8>,
) -> Result<Option<NodeView>, DevTreeError>
    decreases buf.len() + 4 - st.offset,
{
    let step = spec_depth_next(buf, st, target, true, ended);
    match step.result {
        Err(e) => Err(e),
        Ok(None) => Ok(None),
        Ok(Some((ItemView::Node(node), _))) => if node.name == name {
            Ok(Some(node))
        } else if st.offset < step.state.offset <= buf.len() + 4 {
            spec_child_named(buf, step.state, target, step.ended, name)
        } else {
            Ok(None)
        },
        Ok(Some((ItemView::Prop(_), _))) => if st.offset < step.state.offset <= buf.len() + 4 {
            spec_child_named(buf, step.state, target, step.ended, name)
        } else {
            Ok(None)
        },
    }
}

/// A handle to a Device Tree Node within the device tree.
#[derive(Clone, Copy)]
pub struct DevTreeNode<'a, 'dt: 'a> {
    pub(crate) name: &'dt [u8],
    pub(crate) parse_iter: DevTreeIter<'a, 'dt>,
}

impl<'a, 'dt: 'a> DevTreeNode<'a, 'dt> {
    /// The name of the node, and the parser as it stands behind the token that opens it.
    pub closed spec fn view(self) -> NodeView {
        NodeView { name: self.name@, state: self.parse_iter@ }
    }

    /// The bytes of the blob that holds the node.
    pub closed spec fn blob(self) -> Seq<u8> {
        self.parse_iter.blob()
    }

    /// The token that opens the node is where the handle says, and holds its name.
    #[verifier::type_invariant]
    pub open spec fn wf(self) -> bool {
        spec_node_inv(self.blob(), self@)
    }

    pub(crate) fn new(name: &'dt [u8], parse_iter: DevTreeIter<'a, 'dt>) -> (node: Self)
        requires
            spec_node_inv(parse_iter.blob(), NodeView { name: name@, state: parse_iter@ }),
        ensures
            node@ == (NodeView { name: name@, state: parse_iter@ }),
            node.blob() == parse_iter.blob(),
    {
        Self { name, parse_iter }
    }

    /// Returns the name of the `DevTreeNode` (including unit address tag)
    pub fn name(&self) -> (r: Result<&'dt str, DevTreeError>)
        ensures
            str_result_is(r, spec_decode(self@.name)),
            self@.name.len() < MAX_NODE_NAME_LEN - 1,
    {
        proof {
            use_type_invariant(self);
            crate::base::parse::lemma_token_bounds(self.blob(), self@.state.parent.unwrap());
        }
        bytes_as_str(self.name)
    }

    /// Returns an iterator over this node's children [`DevTreeProp`]
    #[must_use]
    pub fn props(&self) -> (r: DevTreeNodePropIter<'a, 'dt>)
        ensures
            r.0@ == self@.state,
            r.0.blob() == self.blob(),
    {
        DevTreeNodePropIter(self.parse_iter)
    }

    /// Returns the next [`DevTreeNode`] object with the provided compatible device tree property
    /// or `None` if none exists.
    pub fn find_next_compatible_node(&self, string: &str) -> (r: Result<
        Option<DevTreeNode<'a, 'dt>>,
        DevTreeError,
    >)
        ensures
            node_result_is(
                r,
                self.blob(),
                spec_next_compatible(self.blob(), self@.state, string.spec_bytes()).result,
            ),
    {
        let mut iter = self.parse_iter;
        iter.next_compatible_node(string)
    }

    /// Returns an iterator over the items that lie below this node: its properties excepted,
    /// its children with their properties, and what lies below them.
    pub fn descendants(&self) -> (r: DevTreeDescendantsIter<'a, 'dt>)
        ensures
            r.0.state() == self@.state,
            r.0.blob() == self.blob(),
            r.0.target() == self@.state.depth + 1,
            !r.0.ended(),
    {
        DevTreeDescendantsIter::new(self.parse_iter)
    }

    /// Returns an iterator over the children of this node, each followed by its properties.
    pub fn children(&self) -> (r: DevTreeChildrenIter<'a, 'dt>)
        ensures
            r.0.state() == self@.state,
            r.0.blob() == self.blob(),
            r.0.target() == self@.state.depth + 1,
            !r.0.ended(),
    {
        DevTreeChildrenIter::new(self.parse_iter)
    }

    /// Returns an iterator over the later siblings of this node, each followed by its
    /// properties.
    pub fn siblings(&self) -> (r: DevTreeSiblingsIter<'a, 'dt>)
        ensures
            r.state() == self@.state,
            r.blob() == self.blob(),
            r.target() == self@.state.depth,
            !r.ended(),
            !r.done(),
    {
        DevTreeSiblingsIter::new(self.parse_iter)
    }

    /// Returns an iterator over the later siblings of this node and what lies below them.
    pub fn siblings_and_descendants(&self) -> (r: DevTreeSiblingsAndDescendantsIter<'a, 'dt>)
        ensures
            r.state() == self@.state,
            r.blob() == self.blob(),
            r.target() == self@.state.depth,
            !r.ended(),
            !r.done(),
    {
        DevTreeSiblingsAndDescendantsIter::new(self.parse_iter)
    }

    /// Returns an iterator over the nodes that lie below this node.
    pub fn descendant_nodes(&self) -> (r: DevTreeNodeFilter<DevTreeDescendantsIter<'a, 'dt>>)
        ensures
            r.0.0.state() == self@.state,
            r.0.0.blob() == self.blob(),
            r.0.0.target() == self@.state.depth + 1,
            !r.0.0.ended(),
    {
        DevTreeNodeFilter(self.descendants())
    }

    /// Returns an iterator over the children of this node.
    pub fn child_nodes(&self) -> (r: DevTreeNodeFilter<DevTreeChildrenIter<'a, 'dt>>)
        ensures
            r.0.0.state() == self@.state,
            r.0.0.blob() == self.blob(),
            r.0.0.target() == self@.state.depth + 1,
            !r.0.0.ended(),
    {
        DevTreeNodeFilter(self.children())
    }

    /// Returns an iterator over the later siblings of this node.
    pub fn sibling_nodes(&self) -> (r: DevTreeNodeFilter<DevTreeSiblingsIter<'a, 'dt>>)
        ensures
            r.0.state() == self@.state,
            r.0.blob() == self.blob(),
            r.0.target() == self@.state.depth,
            !r.0.ended(),
            !r.0.done(),
    {
        DevTreeNodeFilter(self.siblings())
    }

    /// Returns the next sibling of this node, if it has one.
    pub fn next_sibling(&self) -> (r: Result<Option<DevTreeNode<'a, 'dt>>, DevTreeError>)
        ensures
            node_result_is(
                r,
                self.blob(),
                spec_skip_next(self.blob(), self@.state, self@.state.depth, true, false, false).result,
            ),
    {
        proof {
            use_type_invariant(self);
            lemma_skip_first(self.blob(), self@.state, self@.state.depth, false);
        }
        let mut iter = self.siblings();
        match iter.next() {
            Ok(Some(DevTreeItem::Node(node))) => Ok(Some(node)),
            Ok(Some(DevTreeItem::Prop(_))) => Ok(None),
            Ok(None) => Ok(None),
            Err(e) => Err(e),
        }
    }

    /// Returns the first child of this node whose name is `name`, if there is one.
    pub fn child_by_name(&self, name: &str) -> (r: Result<Option<DevTreeNode<'a, 'dt>>, DevTreeError>)
        ensures
            match r {
                Ok(Some(node)) => spec_child_named(
                    self.blob(),
                    self@.state,
                    self@.state.depth + 1,
                    false,
                    name.spec_bytes(),
                ) == Ok::<Option<NodeView>, DevTreeError>(Some(node@)) && node.blob()
                    == self.blob(),
                Ok(None) => spec_child_named(
                    self.blob(),
                    self@.state,
                    self@.state.depth + 1,
                    false,
                    name.spec_bytes(),
                ) == Ok::<Option<NodeView>, DevTreeError>(None),
                Err(e) => spec_child_named(
                    self.blob(),
                    self@.state,
                    self@.state.depth + 1,
                    false,
                    name.spec_bytes(),
                ) == Err::<Option<NodeView>, DevTreeError>(e),
            },
    {
        let ghost blob = self.blob();
        let ghost target = self@.state.depth + 1;
        let ghost wanted = name.spec_bytes();
        let ghost start = self@.state;
        proof {
            use_type_invariant(self);
        }
        let mut iter = self.children();
        loop
            invariant
                iter.0.blob() == blob,
                crate::base::iters::spec_iter_inv(blob, iter.0.state()),
                blob == self.blob(),
                target == self@.state.depth + 1,
                start == self@.state,
                wanted == name.spec_bytes(),
                iter.0.target() == target,
                spec_child_named(blob, iter.0.state(), target, iter.0.ended(), wanted)
                    == spec_child_named(blob, start, target, false, wanted),
            decreases blob.len() + 4 - iter.0.state().offset,
        {
            proof {
                lemma_depth_next(blob, iter.0.state(), target, true, iter.0.ended());
            }
            match iter.next() {
                Err(e) => {
                    return Err(e);
                },
                Ok(None) => {
                    return Ok(None);
                },
                Ok(Some(DevTreeItem::Node(node))) => {
                    if same_bytes(node.name, name.as_bytes()) {
                        return Ok(Some(node));
                    }
                },
                Ok(Some(DevTreeItem::Prop(_))) => {},
            }
        }
    }
}

/// The first item that a walk over the siblings of a node hands out is a node.
pub proof fn lemma_skip_first(buf: Seq<u8>, st: IterState, target: int, ended: bool)
    requires
        crate::base::iters::spec_iter_inv(buf, st),
    ensures
        spec_skip_next(buf, st, target, true, ended, false).result matches Ok(Some((item, _)))
            ==> item is Node,
    decreases buf.len() + 4 - st.offset,
{
    lemma_depth_next(buf, st, target, true, ended);
    let step = spec_depth_next(buf, st, target, true, ended);
    match step.result {
        Ok(Some((item, depth))) => {
            if !(item is Node && depth == target) {
                lemma_skip_first(buf, step.state, target, step.ended);
            }
        },
        _ => {},
    }
}

/// Two handles are equal when they stand at the same place of blobs that hold the same
/// bytes.
impl<'a, 'dt: 'a> PartialEq for DevTreeNode<'a, 'dt> {
    fn eq(&self, other: &Self) -> (r: bool) {
        proof {
            use_type_invariant(self);
            use_type_invariant(other);
        }
        self.parse_iter == other.parse_iter
    }
}

impl<'a, 'dt: 'a> PartialEqSpecImpl for DevTreeNode<'a, 'dt> {
    open spec fn obeys_eq_spec() -> bool {
        true
    }

    open spec fn eq_spec(&self, other: &Self) -> bool {
        self@ == other@ && self.blob() == other.blob()
    }
}

} // verus!
