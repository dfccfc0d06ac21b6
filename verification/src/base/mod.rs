//! Basic device tree parsing utils that operate directly on the FDT.
//!
//! This module provides basic utilities which can operate on a FDT through in-order parsing.
//! These utilites will simply parse the device tree on the fly.
//!
//! See the [`crate::index`] module for more advanced and performant utilites.
pub mod item;
pub mod iters;
pub mod node;
pub mod parse;
pub mod prop;
pub mod sequence;
pub mod tree;

pub use item::DevTreeItem;
pub use node::DevTreeNode;
pub use prop::DevTreeProp;
pub use tree::DevTree;
