//! Iteration over the bits of a bitfield.

use vstd::prelude::*;
use crate::bitfield::Bitfield;
use crate::model::BitfieldView;

verus! {

/// A cursor over the bits of a `Bitfield`, in ascending index order.
pub struct Iter<'b> {
    pub(crate) inner: &'b Bitfield,
    pub(crate) cursor: usize,
}

impl<'b> Iter<'b> {
    /// The cursor is well formed: the bitfield is, its bits can be counted
    /// in a `usize`, and the cursor is not past their end.
    pub closed spec fn wf(&self) -> bool {
        &&& self.inner.wf()
        &&& self.inner@.bit_len() <= usize::MAX
        &&& self.cursor <= self.inner@.bit_len()
    }

    /// The state of the bitfield that the cursor reads.
    pub closed spec fn source(&self) -> BitfieldView {
        self.inner@
    }

    /// The index of the bit that the cursor yields next.
    pub closed spec fn position(&self) -> nat {
        self.cursor as nat
    }

    /// The bits that the cursor has yet to yield.
    pub open spec fn remaining(&self) -> Seq<bool> {
        self.source().bits().skip(self.position() as int)
    }

    /// A cursor at bit 0 of `inner`.
    #[inline]
    pub(crate) fn new(inner: &'b Bitfield) -> (iter: Iter<'b>)
        requires
            inner.wf(),
            inner@.bit_len() <= usize::MAX,
        ensures
            iter.wf(),
            iter.source() == inner@,
            iter.position() == 0,
    {
        Iter { inner, cursor: 0 }
    }

    /// Yields the bit at the cursor and moves the cursor on by one, or
    /// yields `None` where the cursor is at the end of the bits.
    pub fn next(&mut self) -> (item: Option<bool>)
        requires
            old(self).wf(),
        ensures
            final(self).wf(),
            final(self).source() == old(self).source(),
            old(self).position() < old(self).source().bit_len() ==> item == Some(
                old(self).source().bit(old(self).position()),
            ) && final(self).position() == old(self).position() + 1,
            old(self).position() >= old(self).source().bit_len() ==> item is None
                && final(self).position() == old(self).position(),
    {
        let cursor = self.cursor;
        if cursor >= self.inner.len() {
            None
        } else {
            self.cursor = cursor + 1;
            Some(self.inner.get(cursor))
        }
    }

    /// Yields all remaining bits at once.
    pub fn collect(self) -> (items: Vec<bool>)
        requires
            self.wf(),
        ensures
            items@ == self.remaining(),
    {
        let mut cursor = self;
        let mut items: Vec<bool> = Vec::new();
        loop
            invariant
                cursor.wf(),
                cursor.source() == self.source(),
                self.position() <= cursor.position() <= self.source().bit_len(),
                items@ == self.source().bits().subrange(
                    self.position() as int,
                    cursor.position() as int,
                ),
            ensures
                items@ == self.remaining(),
            decreases self.source().bit_len() - cursor.position(),
        {
            match cursor.next() {
                Some(bit) => {
                    items.push(bit);
                    assert(items@ =~= self.source().bits().subrange(
                        self.position() as int,
                        cursor.position() as int,
                    ));
                },
                None => {
                    assert(items@ =~= self.remaining());
                    break ;
                },
            }
        }
        items
    }
}

} // verus!
