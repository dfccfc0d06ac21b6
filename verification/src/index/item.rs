//! The items of an index: its nodes and their properties.
use crate::common::item::UnwrappableDevTreeItem;
use crate::index::iters::IndexItemView;
use crate::index::node::DevTreeIndexNode;
use crate::index::prop::DevTreeIndexProp;
use crate::index::tree::DevTreeIndex;
use vstd::prelude::*;

verus! {

#[derive(Clone, Copy)]
pub enum DevTreeIndexItem<'a, 'i: 'a, 'dt: 'i> {
    Node(DevTreeIndexNode<'a, 'i, 'dt>),
    Prop(DevTreeIndexProp<'a, 'i, 'dt>),
}

impl<'a, 'i: 'a, 'dt: 'i> DevTreeIndexItem<'a, 'i, 'dt> {
    pub open spec fn view(self) -> IndexItemView {
        match self {
            DevTreeIndexItem::Node(node) => IndexItemView::Node(node@),
            DevTreeIndexItem::Prop(prop) => IndexItemView::Prop(prop@.0, prop@.1),
        }
    }

    /// The index that holds the item.
    pub open spec fn spec_index(self) -> &'a DevTreeIndex<'i, 'dt> {
        match self {
            DevTreeIndexItem::Node(node) => node.spec_index(),
            DevTreeIndexItem::Prop(prop) => prop.spec_index(),
        }
    }
}

impl<'a, 'i: 'a, 'dt: 'i> UnwrappableDevTreeItem<'dt> for DevTreeIndexItem<'a, 'i, 'dt> {
    type TreeNode = DevTreeIndexNode<'a, 'i, 'dt>;

    type TreeProp = DevTreeIndexProp<'a, 'i, 'dt>;

    open spec fn spec_node(self) -> Option<Self::TreeNode> {
        match self {
            DevTreeIndexItem::Node(node) => Some(node),
            _ => None,
        }
    }

    open spec fn spec_prop(self) -> Option<Self::TreeProp> {
        match self {
            DevTreeIndexItem::Prop(prop) => Some(prop),
            _ => None,
        }
    }

    fn node(self) -> (r: Option<Self::TreeNode>) {
        match self {
            DevTreeIndexItem::Node(node) => Some(node),
            _ => None,
        }
    }

    fn prop(self) -> (r: Option<Self::TreeProp>) {
        match self {
            DevTreeIndexItem::Prop(prop) => Some(prop),
            _ => None,
        }
    }
}

} // verus!
