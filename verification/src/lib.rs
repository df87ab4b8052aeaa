//! A sparse bitfield: an unbounded sequence of bits whose backing storage is
//! allocated lazily, one fixed-size page at a time.
//!
//! `Bitfield` translates bit and byte indices into page coordinates, reads
//! and writes through a `memory_pager::Pager`, keeps the high-water mark of
//! the bytes ever addressed, and reports for each write whether it changed
//! anything. Its contracts are stated over `model::BitfieldView`; `laws`
//! proves what holds of every such state, and `store` holds what is taken on
//! trust of the pager.

pub mod arith;
pub mod bitfield;
pub mod change;
pub mod error;
pub mod iter;
pub mod laws;
pub mod model;
pub mod store;

pub use crate::arith::is_power_of_two;
pub use crate::bitfield::Bitfield;
pub use crate::change::Change;
pub use crate::error::Error;
pub use crate::iter::Iter;
