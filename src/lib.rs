//! A relocatable heap handle.
//!
//! A [`MoveBox`] owns one logical value whose storage record may be moved to a
//! new slot on request. The move is recorded as a one-hop forward link; the
//! payload migrates lazily on the next access, which also frees the old record.
//! Records live in an index-addressed [`Arena`] with free-list reuse.
pub mod arena;
pub mod laws;
pub mod move_box;

pub use arena::{Arena, MovableAllocation};
pub use move_box::MoveBox;
