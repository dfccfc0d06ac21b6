//! Module exporting traits of this library.
pub use crate::common::item::UnwrappableDevTreeItem;
pub use crate::common::prop::PropReader;
pub use crate::priv_util::SliceRead;
