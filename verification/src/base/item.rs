//! The items of a tree: its nodes and their properties.
use crate::base::iters::ItemView;
use crate::base::node::DevTreeNode;
use crate::base::prop::DevTreeProp;
use crate::common::item::UnwrappableDevTreeItem;
use vstd::prelude::*;

verus! {

/// An enum which contains either a [`DevTreeNode`] or a [`DevTreeProp`]
#[derive(Clone, Copy)]
pub enum DevTreeItem<'a, 'dt: 'a> {
    Node(DevTreeNode<'a, 'dt>),
    Prop(DevTreeProp<'a, 'dt>),
}

impl<'a, 'dt: 'a> DevTreeItem<'a, 'dt> {
    pub open spec fn view(self) -> ItemView {
        match self {
            DevTreeItem::Node(node) => ItemView::Node(node@),
            DevTreeItem::Prop(prop) => ItemView::Prop(prop@),
        }
    }

    /// The bytes of the blob that holds the item.
    pub open spec fn blob(self) -> Seq<u8> {
        match self {
            DevTreeItem::Node(node) => node.blob(),
            DevTreeItem::Prop(prop) => prop.blob(),
        }
    }
}

impl<'a, 'dt: 'a> UnwrappableDevTreeItem<'dt> for DevTreeItem<'a, 'dt> {
    type TreeNode = DevTreeNode<'a, 'dt>;

    type TreeProp = DevTreeProp<'a, 'dt>;

    open spec fn spec_node(self) -> Option<Self::TreeNode> {
        match self {
            DevTreeItem::Node(node) => Some(node),
            _ => None,
        }
    }

    open spec fn spec_prop(self) -> Option<Self::TreeProp> {
        match self {
            DevTreeItem::Prop(prop) => Some(prop),
            _ => None,
        }
    }

    fn node(self) -> (r: Option<Self::TreeNode>) {
        match self {
            DevTreeItem::Node(node) => Some(node),
            _ => None,
        }
    }

    fn prop(self) -> (r: Option<Self::TreeProp>) {
        match self {
            DevTreeItem::Prop(prop) => Some(prop),
            _ => None,
        }
    }
}

} // verus!
