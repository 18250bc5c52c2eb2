//! An interior-mutability cell that permits nested, overlapping mutable
//! guards: only the most recently issued guard that is still outstanding may
//! reach the value, and a superseded guard is refused when it is used.
pub mod cell;
pub mod protocol;

pub use cell::{EpochCell, Ref, RefMut, StaleBorrowError};
