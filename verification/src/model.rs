//! The mathematical model of a sparse bitfield: address translation, the
//! meaning of a single byte as eight bits, and the abstract state that the
//! executable `Bitfield` is a view of.

use vstd::prelude::*;
use vstd::arithmetic::power2::pow2;
use crate::change::Change;
use crate::error::Error;
use crate::store::grown;
use crate::store::zeroed_page;

verus! {

/// `n` is `2^k` for some natural `k`.
pub open spec fn power_of_two(n: nat) -> bool {
    exists|k: nat| n == pow2(k)
}

/// The byte that holds bit `index`.
pub open spec fn byte_of_bit(index: nat) -> nat {
    index / 8
}

/// The position of bit `index` inside its byte; position 0 is the most
/// significant bit.
pub open spec fn position_of_bit(index: nat) -> u8 {
    (index % 8) as u8
}

/// The page that holds byte `index`.
pub open spec fn page_of_byte(index: nat, page_size: nat) -> nat {
    index / page_size
}

/// The offset of byte `index` inside its page.
pub open spec fn offset_of_byte(index: nat, page_size: nat) -> nat {
    index % page_size
}

/// The mask that selects the bit at `position` of a byte: `128` for position
/// 0, `1` for position 7.
pub open spec fn bit_mask(position: u8) -> u8 {
    128u8 >> position
}

/// The bit at `position` of `byte`.
pub open spec fn byte_bit(byte: u8, position: u8) -> bool {
    byte & bit_mask(position) != 0
}

/// `byte` with the bit at `position` set to `value`.
pub open spec fn byte_with_bit(byte: u8, position: u8, value: bool) -> u8 {
    if value {
        byte | bit_mask(position)
    } else {
        byte & (255u8 ^ bit_mask(position))
    }
}

/// `count` writes to the bit at `index` that alternate between `first` and
/// its negation, `first` coming first.
pub open spec fn alternating_writes(index: nat, first: bool, count: nat) -> Seq<(nat, bool)> {
    Seq::new(
        count,
        |k: int|
            (
                index,
                if k % 2 == 0 {
                    first
                } else {
                    !first
                },
            ),
    )
}

/// Why no bitfield can be built over a page store with this page size and
/// these page slots, or `None` where one can: the page size must be a power
/// of two, the slots laid end to end must fit in a `usize` length, and every
/// resident page must be one page size long. The first that fails is named.
pub open spec fn store_fault(page_size: nat, pages: Seq<Option<Seq<u8>>>) -> Option<Error> {
    if !power_of_two(page_size) {
        Some(Error::PageSize)
    } else if pages.len() * page_size > usize::MAX {
        Some(Error::TooLarge)
    } else if exists|p: int|
        0 <= p < pages.len() && (#[trigger] pages[p]) is Some && pages[p].unwrap().len()
            != page_size {
        Some(Error::PageLength)
    } else {
        None
    }
}

/// The abstract state of a sparse bitfield.
pub struct BitfieldView {
    /// The size of every page, in bytes.
    pub page_size: nat,
    /// One slot per page number below the page count; `None` where the page
    /// was never allocated.
    pub pages: Seq<Option<Seq<u8>>>,
    /// One more than the highest byte index ever addressed by a write.
    pub byte_len: nat,
}

impl BitfieldView {
    /// The state is well formed: the page size is a power of two, every
    /// resident page is exactly one page long, and every byte below the byte
    /// length lies in a page slot.
    pub open spec fn wf(self) -> bool {
        &&& power_of_two(self.page_size)
        &&& forall|p: int|
            0 <= p < self.pages.len() && (#[trigger] self.pages[p]) is Some
                ==> self.pages[p].unwrap().len() == self.page_size
        &&& self.byte_len <= self.pages.len() * self.page_size
    }

    /// The state of a bitfield with no page and no byte.
    pub open spec fn empty(page_size: nat) -> BitfieldView {
        BitfieldView { page_size, pages: Seq::empty(), byte_len: 0 }
    }

    /// The state of a bitfield built over an existing page store: every byte
    /// of every page slot counts as addressed.
    pub open spec fn of_store(page_size: nat, pages: Seq<Option<Seq<u8>>>) -> BitfieldView {
        BitfieldView { page_size, pages, byte_len: pages.len() * page_size }
    }

    /// The number of page slots.
    pub open spec fn page_len(self) -> nat {
        self.pages.len()
    }

    /// The number of bits: eight per byte of the byte length.
    pub open spec fn bit_len(self) -> nat {
        self.byte_len * 8
    }

    /// Whether page `page` is resident.
    pub open spec fn resident(self, page: nat) -> bool {
        page < self.pages.len() && self.pages[page as int] is Some
    }

    /// The content of page `page`: its buffer where it is resident, else zeros.
    pub open spec fn page(self, page: nat) -> Seq<u8> {
        if self.resident(page) {
            self.pages[page as int].unwrap()
        } else {
            zeroed_page(self.page_size)
        }
    }

    /// The byte at `index`: zero where its page is not resident.
    pub open spec fn byte(self, index: nat) -> u8 {
        self.page(page_of_byte(index, self.page_size))[offset_of_byte(index, self.page_size) as int]
    }

    /// The bit at `index`.
    pub open spec fn bit(self, index: nat) -> bool {
        byte_bit(self.byte(byte_of_bit(index)), position_of_bit(index))
    }

    /// The state after a write of `value` to the byte at `index`: the byte's
    /// page is resident and holds `value` there, no other page slot differs
    /// but for absent slots added below it, and the byte length covers
    /// `index`.
    pub open spec fn write_byte(self, index: nat, value: u8) -> BitfieldView {
        let page = page_of_byte(index, self.page_size);
        let offset = offset_of_byte(index, self.page_size);
        BitfieldView {
            page_size: self.page_size,
            pages: grown(self.pages, page + 1).update(
                page as int,
                Some(self.page(page).update(offset as int, value)),
            ),
            byte_len: if index >= self.byte_len {
                index + 1
            } else {
                self.byte_len
            },
        }
    }

    /// What a write of `value` to the byte at `index` reports.
    pub open spec fn byte_change(self, index: nat, value: u8) -> Change {
        if self.byte(index) == value {
            Change::Unchanged
        } else {
            Change::Changed
        }
    }

    /// The state after a write of `value` to the bit at `index`.
    pub open spec fn write_bit(self, index: nat, value: bool) -> BitfieldView {
        self.write_byte(
            byte_of_bit(index),
            byte_with_bit(self.byte(byte_of_bit(index)), position_of_bit(index), value),
        )
    }

    /// What a write of `value` to the bit at `index` reports.
    pub open spec fn bit_change(self, index: nat, value: bool) -> Change {
        if self.bit(index) == value {
            Change::Unchanged
        } else {
            Change::Changed
        }
    }

    /// The state after the writes of `writes`, each a bit index and the value
    /// written there, made in order.
    pub open spec fn write_bits(self, writes: Seq<(nat, bool)>) -> BitfieldView
        decreases writes.len(),
    {
        if writes.len() == 0 {
            self
        } else {
            self.write_bits(writes.drop_last()).write_bit(writes.last().0, writes.last().1)
        }
    }

    /// All bits below the bit length, in ascending order.
    pub open spec fn bits(self) -> Seq<bool> {
        Seq::new(self.bit_len(), |i: int| self.bit(i as nat))
    }

    /// All page slots laid end to end, an absent page as zeros.
    pub open spec fn flat(self) -> Seq<u8> {
        Seq::new(self.pages.len() * self.page_size, |i: int| self.byte(i as nat))
    }
}

} // verus!
