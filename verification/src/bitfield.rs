//! The sparse bitfield itself: address translation, reads and writes through
//! the page store, length bookkeeping and flattening.

use vstd::prelude::*;
use vstd::arithmetic::power2::lemma2_to64;
use vstd::arithmetic::power2::pow2;
use memory_pager::Pager;
use crate::arith::is_power_of_two;
use crate::arith::lemma_bit_address;
use crate::arith::lemma_mask_is_remainder;
use crate::change::Change;
use crate::error::Error;
use crate::iter::Iter;
use crate::laws::lemma_bit_change_is_byte_change;
use crate::laws::lemma_byte_address;
use crate::laws::lemma_page_byte;
use crate::laws::lemma_page_span;
use crate::laws::lemma_power_of_two_positive;
use crate::laws::lemma_write_bit_length;
use crate::laws::lemma_write_bit_reads;
use crate::laws::lemma_write_byte_reads;
use crate::laws::lemma_write_byte_wf;
use crate::model::offset_of_byte;
use crate::model::power_of_two;
use crate::model::store_fault;
use crate::model::BitfieldView;
use crate::store::page_bytes;
use crate::store::pager_page_size;
use crate::store::pager_slots;

verus! {

/// A sparse bitfield: bits addressed by any `usize` index, stored in pages
/// that are allocated on the first write into them.
#[derive(Debug)]
pub struct Bitfield {
    pages: Pager,
    byte_length: usize,
}

impl View for Bitfield {
    type V = BitfieldView;

    closed spec fn view(&self) -> BitfieldView {
        BitfieldView {
            page_size: pager_page_size(self.pages) as nat,
            pages: pager_slots(self.pages),
            byte_len: self.byte_length as nat,
        }
    }
}

impl Bitfield {
    /// The bitfield is well formed: its state is. Every constructor
    /// establishes this and every method keeps it.
    pub open spec fn wf(&self) -> bool {
        self@.wf()
    }

    /// Creates an empty bitfield whose pages are `page_size` bytes long. The
    /// page size must be a power of two: `is_power_of_two` tests it.
    pub fn new(page_size: usize) -> (bits: Bitfield)
        requires
            power_of_two(page_size as nat),
        ensures
            bits.wf(),
            bits@ == BitfieldView::empty(page_size as nat),
    {
        let pages = Pager::new(page_size);
        Bitfield { pages, byte_length: 0 }
    }

    /// Builds a bitfield over an existing page store, every byte of whose
    /// page slots then counts as addressed. Fails exactly where the store
    /// cannot back a bitfield, with the first fault that `store_fault` names.
    pub fn from_pager(pages: Pager) -> (res: Result<Bitfield, Error>)
        ensures
            match res {
                Ok(bits) => {
                    &&& store_fault(pager_page_size(pages) as nat, pager_slots(pages)) is None
                    &&& bits.wf()
                    &&& bits@ == BitfieldView::of_store(
                        pager_page_size(pages) as nat,
                        pager_slots(pages),
                    )
                },
                Err(e) => store_fault(pager_page_size(pages) as nat, pager_slots(pages)) == Some(e),
            },
    {
        let page_size = pages.page_size();
        if !is_power_of_two(page_size) {
            return Err(Error::PageSize);
        }
        let page_length = pages.len();
        let byte_length = match page_length.checked_mul(page_size) {
            Some(byte_length) => byte_length,
            None => {
                return Err(Error::TooLarge);
            },
        };
        let mut index: usize = 0;
        while index < page_length
            invariant
                index <= page_length,
                page_length == pager_slots(pages).len(),
                page_size == pager_page_size(pages),
                power_of_two(page_size as nat),
                page_length * page_size <= usize::MAX,
                forall|p: int|
                    0 <= p < index && (#[trigger] pager_slots(pages)[p]) is Some ==> pager_slots(
                        pages,
                    )[p].unwrap().len() == page_size,
            decreases page_length - index,
        {
            match pages.get(index) {
                Some(page) => {
                    if page.len() != page_size {
                        assert(pager_slots(pages)[index as int] is Some);
                        return Err(Error::PageLength);
                    }
                },
                None => {},
            }
            index += 1;
        }
        Ok(Bitfield { pages, byte_length })
    }

    /// Writes `value` to the bit at `index`, and tells whether the bit
    /// changed.
    #[inline]
    pub fn set(&mut self, index: usize, value: bool) -> (change: Change)
        requires
            old(self).wf(),
        ensures
            final(self).wf(),
            final(self)@ == old(self)@.write_bit(index as nat, value),
            change == old(self)@.bit_change(index as nat, value),
            final(self)@.bit(index as nat) == value,
            forall|other: nat|
                other != index ==> #[trigger] final(self)@.bit(other) == old(self)@.bit(other),
            final(self)@.byte_len >= old(self)@.byte_len,
            final(self)@.bit_len() > index,
    {
        proof {
            lemma_bit_address(index);
            lemma_bit_change_is_byte_change(self@, index as nat, value);
            lemma_write_bit_length(self@, index as nat, value);
            assert forall|other: nat| other != index implies #[trigger] self@.write_bit(
                index as nat,
                value,
            ).bit(other) == self@.bit(other) by {
                lemma_write_bit_reads(self@, index as nat, value, other);
            }
            lemma_write_bit_reads(self@, index as nat, value, index as nat);
        }
        let index_mask = index & 7;
        let byte_index = (index - index_mask) / 8;
        let byte = self.get_byte(byte_index);
        if value {
            let byte = byte | (128u8 >> (index_mask as u8));
            self.set_byte(byte_index, byte)
        } else {
            let byte = byte & (255u8 ^ (128u8 >> (index_mask as u8)));
            self.set_byte(byte_index, byte)
        }
    }

    /// Writes `byte` to the byte at `index`, allocating its page if it is
    /// not resident, and tells whether the byte changed. The byte length
    /// grows to cover `index` whether or not the byte changed, so `index + 1`
    /// must fit in a `usize`.
    #[inline]
    pub fn set_byte(&mut self, index: usize, byte: u8) -> (change: Change)
        requires
            old(self).wf(),
            index < usize::MAX,
        ensures
            final(self).wf(),
            final(self)@ == old(self)@.write_byte(index as nat, byte),
            change == old(self)@.byte_change(index as nat, byte),
            final(self)@.byte(index as nat) == byte,
            forall|other: nat|
                other != index ==> #[trigger] final(self)@.byte(other) == old(self)@.byte(other),
            final(self)@.byte_len >= old(self)@.byte_len,
            final(self)@.byte_len > index,
    {
        proof {
            assert forall|other: nat| other != index implies #[trigger] self@.write_byte(
                index as nat,
                byte,
            ).byte(other) == self@.byte(other) by {
                lemma_write_byte_reads(self@, index as nat, byte, other);
            }
            lemma_write_byte_reads(self@, index as nat, byte, index as nat);
        }
        let byte_offset = self.page_mask(index);
        let page_num = index / self.page_size();
        proof {
            lemma_byte_address(index as nat, self@.page_size);
            lemma_write_byte_wf(self@, index as nat, byte);
        }
        let page = self.pages.get_mut_or_alloc(page_num);
        if index >= self.byte_length {
            self.byte_length = index + 1;
        }
        if page[byte_offset] == byte {
            proof {
                assert(page_bytes(*page) =~= page_bytes(*page).update(byte_offset as int, byte));
            }
            Change::Unchanged
        } else {
            page[byte_offset] = byte;
            Change::Changed
        }
    }

    /// The number of bits: eight times the number of bytes, which must fit
    /// in a `usize`.
    #[inline]
    pub fn len(&self) -> (len: usize)
        requires
            self.wf(),
            self@.bit_len() <= usize::MAX,
        ensures
            len == self@.bit_len(),
    {
        self.byte_length * 8
    }

    /// The size of a page, in bytes.
    #[inline]
    pub fn page_size(&self) -> (page_size: usize)
        ensures
            page_size == self@.page_size,
    {
        self.pages.page_size()
    }

    /// The number of bytes: one more than the highest byte index that a
    /// write has addressed.
    #[inline]
    pub fn byte_len(&self) -> (byte_len: usize)
        ensures
            byte_len == self@.byte_len,
    {
        self.byte_length
    }

    /// The number of page slots: one more than the highest page number that
    /// a write has addressed.
    #[inline]
    pub fn page_len(&self) -> (page_len: usize)
        ensures
            page_len == self@.page_len(),
    {
        self.pages.len()
    }

    /// Returns `true` if there is no page slot.
    #[inline]
    pub fn is_empty(&self) -> (empty: bool)
        ensures
            empty == (self@.page_len() == 0),
    {
        self.pages.is_empty()
    }

    /// A fresh cursor over the bits, from bit 0 up to the last bit below
    /// `len()`, which must fit in a `usize`.
    #[inline]
    pub fn iter(&self) -> (iter: Iter<'_>)
        requires
            self.wf(),
            self@.bit_len() <= usize::MAX,
        ensures
            iter.wf(),
            iter.source() == self@,
            iter.position() == 0,
    {
        Iter::new(self)
    }

    /// All page slots laid end to end in one buffer, `page_len()` times
    /// `page_size()` bytes long, with zeros where a page is not resident.
    /// Fails exactly where that length does not fit in a `usize`.
    pub fn to_bytes(&self) -> (res: Result<Vec<u8>, Error>)
        requires
            self.wf(),
        ensures
            match res {
                Ok(bytes) => bytes@ == self@.flat(),
                Err(e) => e == Error::TooLarge,
            },
            res is Ok <==> self@.page_len() * self@.page_size <= usize::MAX,
    {
        let page_size = self.page_size();
        let page_len = self.page_len();
        let total = match page_len.checked_mul(page_size) {
            Some(total) => total,
            None => {
                return Err(Error::TooLarge);
            },
        };
        let mut all: Vec<u8> = vec![0u8; total];
        proof {
            lemma_power_of_two_positive(self@.page_size);
        }
        let mut index: usize = 0;
        while index < page_len
            invariant
                self.wf(),
                page_size > 0,
                page_size == self@.page_size,
                page_len == self@.page_len(),
                total == page_len * page_size,
                index <= page_len,
                all@.len() == total,
                forall|i: int| 0 <= i < index * page_size ==> all@[i] == self@.byte(i as nat),
                forall|i: int| index * page_size <= i < total ==> all@[i] == 0u8,
            decreases page_len - index,
        {
            proof {
                lemma_page_span(index as nat, page_len as nat, page_size as nat);
            }
            let all_offset = index * page_size;
            match self.pages.get(index) {
                Some(page) => {
                    let mut offset: usize = 0;
                    while offset < page_size
                        invariant
                            self.wf(),
                            page_size > 0,
                            page_size == self@.page_size,
                            index < page_len,
                            page_len == self@.page_len(),
                            all_offset == index * page_size,
                            all_offset + page_size <= total,
                            offset <= page_size,
                            all@.len() == total,
                            self@.pages[index as int] == Some(page_bytes(*page)),
                            forall|i: int|
                                0 <= i < all_offset + offset ==> all@[i] == self@.byte(i as nat),
                            forall|i: int| all_offset + offset <= i < total ==> all@[i] == 0u8,
                        decreases page_size - offset,
                    {
                        proof {
                            lemma_page_byte(
                                index as nat,
                                offset as nat,
                                page_size as nat,
                            );
                        }
                        all[all_offset + offset] = page[offset];
                        offset += 1;
                    }
                },
                None => {
                    proof {
                        assert forall|i: int|
                            all_offset <= i < all_offset + page_size implies all@[i] == self@.byte(
                            i as nat,
                        ) by {
                            lemma_page_byte(
                                index as nat,
                                (i - all_offset) as nat,
                                page_size as nat,
                            );
                        }
                    }
                },
            }
            index += 1;
        }
        proof {
            assert(all@ =~= self@.flat());
        }
        Ok(all)
    }

    /// The offset in its page of the byte at `index`.
    #[inline]
    fn page_mask(&self, index: usize) -> (offset: usize)
        requires
            self.wf(),
        ensures
            self@.page_size > 0,
            offset == offset_of_byte(index as nat, self@.page_size),
    {
        proof {
            lemma_mask_is_remainder(index, pager_page_size(self.pages));
        }
        index & (self.page_size() - 1)
    }

    /// The byte at `index`; zero where its page is not resident.
    #[inline]
    pub fn get_byte(&self, index: usize) -> (byte: u8)
        requires
            self.wf(),
        ensures
            byte == self@.byte(index as nat),
    {
        let byte_offset = self.page_mask(index);
        let page_num = index / self.page_size();
        match self.pages.get(page_num) {
            Some(page) => page[byte_offset],
            None => 0,
        }
    }

    /// The bit at `index`; `false` where its page is not resident.
    #[inline]
    pub fn get(&self, index: usize) -> (bit: bool)
        requires
            self.wf(),
        ensures
            bit == self@.bit(index as nat),
    {
        proof {
            lemma_bit_address(index);
        }
        let byte_offset = index & 7;
        let j = (index - byte_offset) / 8;
        let num = self.get_byte(j) & (128u8 >> (byte_offset as u8));
        num != 0
    }
}

impl Default for Bitfield {
    /// Creates an empty bitfield whose pages are 1024 bytes long.
    #[inline]
    fn default() -> (bits: Bitfield)
        ensures
            bits.wf(),
            bits@ == BitfieldView::empty(1024),
    {
        proof {
            lemma2_to64();
            assert(1024nat == pow2(10));
        }
        let page_size: usize = 1024;
        Bitfield::new(page_size)
    }
}

} // verus!
