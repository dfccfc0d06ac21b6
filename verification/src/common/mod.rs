//! What the two access layers share.
pub mod item;
pub mod prop;
