//! The page store: `memory_pager::Pager` and its pages, as the bitfield sees
//! them. Nothing in this file is proved: each contract states what the
//! source of `memory-pager` shows of the function it is given to.

use vstd::prelude::*;
use memory_pager::Page;
use memory_pager::Pager;

verus! {

/// `memory_pager::Pager`: a vector of page slots and a page size. Its
/// content is known only through `pager_slots` and `pager_page_size`.
#[verifier::external_type_specification]
#[verifier::external_body]
pub struct ExPager(memory_pager::Pager);

/// `memory_pager::Page`: a byte buffer. Its content is known only through
/// `page_bytes`.
#[verifier::external_type_specification]
#[verifier::external_body]
pub struct ExPage(memory_pager::Page);

/// A page as it is when first allocated: `page_size` zero bytes.
pub open spec fn zeroed_page(page_size: nat) -> Seq<u8> {
    Seq::new(page_size, |i: int| 0u8)
}

/// The page slots `slots`, extended with absent pages up to `len` slots.
pub open spec fn grown(slots: Seq<Option<Seq<u8>>>, len: nat) -> Seq<Option<Seq<u8>>> {
    if len <= slots.len() {
        slots
    } else {
        Seq::new(
            len,
            |i: int|
                if i < slots.len() {
                    slots[i]
                } else {
                    None
                },
        )
    }
}

/// The bytes of a page's buffer, in order.
pub uninterp spec fn page_bytes(page: Page) -> Seq<u8>;

/// The page slots of a pager, in order of page number: the bytes of the page
/// where one is resident, `None` where none is.
pub uninterp spec fn pager_slots(pager: Pager) -> Seq<Option<Seq<u8>>>;

/// The page size that a pager was made with.
pub uninterp spec fn pager_page_size(pager: Pager) -> usize;

/// `Pager::new` keeps the page size it is given and starts with no page
/// slot. It accepts any page size.
pub assume_specification[ memory_pager::Pager::new ](page_size: usize) -> (pager: Pager)
    ensures
        pager_page_size(pager) == page_size,
        pager_slots(pager) == Seq::<Option<Seq<u8>>>::empty(),
;

/// `Pager::len` is the number of page slots, resident or not.
pub assume_specification[ memory_pager::Pager::len ](pager: &Pager) -> (len: usize)
    ensures
        len == pager_slots(*pager).len(),
;

/// `Pager::is_empty` tells whether there is no page slot.
pub assume_specification[ memory_pager::Pager::is_empty ](pager: &Pager) -> (empty: bool)
    ensures
        empty == (pager_slots(*pager).len() == 0),
;

/// `Pager::page_size` is the page size that the pager was made with.
pub assume_specification[ memory_pager::Pager::page_size ](pager: &Pager) -> (page_size: usize)
    ensures
        page_size == pager_page_size(*pager),
;

/// `Pager::get` hands out the page of a slot that is resident, and `None`
/// for a slot that is not, or for a page number past the last slot. It
/// allocates nothing.
pub assume_specification[ memory_pager::Pager::get ](pager: &Pager, page_num: usize) -> (page:
    Option<&Page>)
    ensures
        match page {
            Some(p) => page_num < pager_slots(*pager).len() && pager_slots(*pager)[page_num as int]
                == Some(page_bytes(*p)),
            None => page_num >= pager_slots(*pager).len() || pager_slots(*pager)[page_num as int]
                is None,
        },
;

/// `Pager::get_mut_or_alloc` first adds absent slots until slot `page_num`
/// exists, then puts a page of `page_size` zero bytes into that slot if it
/// is absent, and hands out the slot's page. What the caller writes through
/// the reference is what the slot holds afterwards; no other slot changes.
/// The function computes `page_num + 1` and, for a new page, `page_num` times
/// the capacity of its buffer, which `vec!` makes equal to its length, the
/// page size: both must fit in a `usize`. A request for more memory than can
/// be had is not modelled, as vstd does not model it for `Vec`.
pub assume_specification[ memory_pager::Pager::get_mut_or_alloc ](
    pager: &mut Pager,
    page_num: usize,
) -> (page: &mut Page)
    requires
        page_num < usize::MAX,
        page_num * pager_page_size(*old(pager)) <= usize::MAX,
    ensures
        pager_page_size(*final(pager)) == pager_page_size(*old(pager)),
        page_bytes(*page) == (if page_num < pager_slots(*old(pager)).len() && pager_slots(
            *old(pager),
        )[page_num as int] is Some {
            pager_slots(*old(pager))[page_num as int].unwrap()
        } else {
            zeroed_page(pager_page_size(*old(pager)) as nat)
        }),
        pager_slots(*final(pager)) == grown(
            pager_slots(*old(pager)),
            (page_num + 1) as nat,
        ).update(page_num as int, Some(page_bytes(*final(page)))),
;

/// `Page` dereferences to its buffer as a slice.
pub assume_specification[ <memory_pager::Page as std::ops::Deref>::deref ](page: &Page) -> (bytes:
    &<memory_pager::Page as std::ops::Deref>::Target)
    ensures
        bytes@ == page_bytes(*page),
;

/// `Page` dereferences mutably to its buffer as a slice: what the caller
/// writes into the slice is what the page holds afterwards.
pub assume_specification[ <memory_pager::Page as std::ops::DerefMut>::deref_mut ](
    page: &mut Page,
) -> (bytes: &mut <memory_pager::Page as std::ops::Deref>::Target)
    ensures
        bytes@ == page_bytes(*old(page)),
        page_bytes(*final(page)) == final(bytes)@,
;

} // verus!
