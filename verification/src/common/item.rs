//! Telling the nodes from the properties among the items of a tree.
use crate::common::prop::PropReader;
use vstd::prelude::*;

verus! {

pub trait UnwrappableDevTreeItem<'dt>: Sized {
    type TreeProp: PropReader<'dt>;

    type TreeNode;

    /// The node that this item is, if it is one.
    spec fn spec_node(self) -> Option<Self::TreeNode>;

    /// The property that this item is, if it is one.
    spec fn spec_prop(self) -> Option<Self::TreeProp>;

    fn node(self) -> (r: Option<Self::TreeNode>)
        ensures
            r == self.spec_node(),
    ;

    fn prop(self) -> (r: Option<Self::TreeProp>)
        ensures
            r == self.spec_prop(),
    ;
}

} // verus!
