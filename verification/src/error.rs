//! Why a bitfield cannot be built over a page store, or flattened.

use vstd::prelude::*;

verus! {

/// The reasons for which an operation on a bitfield fails.
#[derive(Debug, PartialEq, Eq, Structural, Clone, Copy)]
pub enum Error {
    /// The page size of the page store is not a power of two.
    PageSize,
    /// A resident page of the page store is not exactly one page size long.
    PageLength,
    /// All page slots laid end to end are longer than a `usize` can count.
    TooLarge,
}

} // verus!
