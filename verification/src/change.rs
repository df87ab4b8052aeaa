use vstd::prelude::*;

verus! {

/// Tells whether a write altered the stored content.
#[derive(Debug, PartialEq, Eq, Structural, Clone, Copy)]
pub enum Change {
    /// The stored value differed from the one written.
    Changed,
    /// The stored value already was the one written.
    Unchanged,
}

impl Change {
    /// Returns `true` if the result is `Changed`.
    #[inline]
    pub fn is_changed(&self) -> (changed: bool)
        ensures
            changed == (*self == Change::Changed),
    {
        *self == Change::Changed
    }

    /// Returns `true` if the result is `Unchanged`.
    #[inline]
    pub fn is_unchanged(&self) -> (unchanged: bool)
        ensures
            unchanged == (*self == Change::Unchanged),
    {
        !self.is_changed()
    }
}

} // verus!
