//! Performant device tree utils which use an index built over a parsed FDT.
//!
//! Utilites in this module operate on a [`DevTreeIndex`]. This index provides an efficient to
//! traverse index of a parsed device tree.
//!
//! The index may be built without an allocator. In order to build the index, only a single `[u8]`
//! buffer is required.
//!
//! # Background
//!
//! FDT's are a compact binary format; node names, and other information all in a single
//! datastructure. Utilites which parse this device tree on the fly will run slower than those
//! which operate on an optimized index. Some operations such as finding a node's parent may
//! require `O(n^2)` time. To avoid this issue, we provide this module and related utilites.
pub mod arena;
pub mod equiv;
pub mod item;
pub mod iters;
pub mod linking;
pub mod model;
pub mod node;
pub mod prop;
pub mod tree;

pub use item::DevTreeIndexItem;
pub use node::DevTreeIndexNode;
pub use prop::DevTreeIndexProp;
pub use tree::DevTreeIndex;
