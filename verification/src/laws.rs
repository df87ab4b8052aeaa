//! What holds of every well-formed bitfield state, proved over the model.

use vstd::prelude::*;
use vstd::arithmetic::div_mod::lemma_fundamental_div_mod;
use vstd::arithmetic::div_mod::lemma_fundamental_div_mod_converse;
use vstd::arithmetic::div_mod::lemma_mod_bound;
use vstd::arithmetic::mul::lemma_mul_inequality;
use vstd::arithmetic::power2::lemma_pow2_pos;
use vstd::arithmetic::power2::pow2;
use crate::arith::lemma_byte_with_bit;
use crate::change::Change;
use crate::model::alternating_writes;
use crate::model::byte_of_bit;
use crate::model::byte_with_bit;
use crate::model::offset_of_byte;
use crate::model::page_of_byte;
use crate::model::position_of_bit;
use crate::model::power_of_two;
use crate::model::BitfieldView;

verus! {

/// A power of two is positive.
pub proof fn lemma_power_of_two_positive(n: nat)
    requires
        power_of_two(n),
    ensures
        n > 0,
{
    let k = choose|k: nat| n == pow2(k);
    lemma_pow2_pos(k);
}

/// A byte index is its page number times the page size plus its offset, and
/// the offset is below the page size.
pub proof fn lemma_byte_address(index: nat, page_size: nat)
    requires
        page_size > 0,
    ensures
        index == page_of_byte(index, page_size) * page_size + offset_of_byte(index, page_size),
        offset_of_byte(index, page_size) < page_size,
        index < (page_of_byte(index, page_size) + 1) * page_size,
{
    lemma_fundamental_div_mod(index as int, page_size as int);
    lemma_mod_bound(index as int, page_size as int);
    assert((page_of_byte(index, page_size) + 1) * page_size == page_of_byte(index, page_size)
        * page_size + page_size) by (nonlinear_arith);
    assert(page_size * (index as int / page_size as int) == page_of_byte(index, page_size)
        * page_size) by (nonlinear_arith);
}

/// Page `page` of `page_len` pages ends where the next page starts, within
/// the length of all pages.
pub proof fn lemma_page_span(page: nat, page_len: nat, page_size: nat)
    requires
        page < page_len,
    ensures
        (page + 1) * page_size == page * page_size + page_size,
        (page + 1) * page_size <= page_len * page_size,
{
    assert((page + 1) * page_size == page * page_size + page_size) by (nonlinear_arith);
    lemma_mul_inequality((page + 1) as int, page_len as int, page_size as int);
}

/// The byte at offset `offset` of page `page` has the index `page *
/// page_size + offset`.
pub proof fn lemma_page_byte(page: nat, offset: nat, page_size: nat)
    requires
        offset < page_size,
    ensures
        page_of_byte(page * page_size + offset, page_size) == page,
        offset_of_byte(page * page_size + offset, page_size) == offset,
{
    lemma_fundamental_div_mod_converse(
        (page * page_size + offset) as int,
        page_size as int,
        page as int,
        offset as int,
    );
}

/// A write of a byte leaves a well-formed state well formed.
pub proof fn lemma_write_byte_wf(view: BitfieldView, index: nat, value: u8)
    requires
        view.wf(),
    ensures
        view.write_byte(index, value).wf(),
{
    lemma_power_of_two_positive(view.page_size);
    lemma_byte_address(index, view.page_size);
    let page = page_of_byte(index, view.page_size);
    let after = view.write_byte(index, value);
    assert(view.page(page).len() == view.page_size);
    assert(after.pages.len() >= page + 1);
    assert(after.pages.len() >= view.pages.len());
    lemma_mul_inequality((page + 1) as int, after.pages.len() as int, view.page_size as int);
    lemma_mul_inequality(view.pages.len() as int, after.pages.len() as int, view.page_size as int);
    assert forall|p: int| 0 <= p < after.pages.len() && (#[trigger] after.pages[p]) is Some implies
        after.pages[p].unwrap().len() == after.page_size by {
        if p != page {
            assert(p < view.pages.len() && after.pages[p] == view.pages[p]);
        }
    }
}

/// After a write of a byte, that byte reads as the value written and every
/// other byte reads as before.
pub proof fn lemma_write_byte_reads(view: BitfieldView, index: nat, value: u8, other: nat)
    requires
        view.wf(),
    ensures
        view.write_byte(index, value).byte(index) == value,
        other != index ==> view.write_byte(index, value).byte(other) == view.byte(other),
{
    let size = view.page_size;
    lemma_power_of_two_positive(size);
    lemma_byte_address(index, size);
    lemma_byte_address(other, size);
    let page = page_of_byte(index, size);
    let after = view.write_byte(index, value);
    assert(view.page(page).len() == size);
    assert(after.page(page) == view.page(page).update(offset_of_byte(index, size) as int, value));
    if other != index {
        let other_page = page_of_byte(other, size);
        if other_page != page {
            assert(after.page(other_page) == view.page(other_page));
        }
    }
}

/// A write of a byte never shrinks the byte length or the page count, and
/// after it both cover the byte; the page size stays.
pub proof fn lemma_write_byte_length(view: BitfieldView, index: nat, value: u8)
    ensures
        view.write_byte(index, value).byte_len >= view.byte_len,
        view.write_byte(index, value).byte_len > index,
        view.write_byte(index, value).page_size == view.page_size,
        view.write_byte(index, value).page_len() >= view.page_len(),
        view.write_byte(index, value).page_len() > page_of_byte(index, view.page_size),
{
}

/// A bit index is eight times its byte index plus its position, which is
/// below eight.
pub proof fn lemma_bit_position(index: nat)
    ensures
        position_of_bit(index) < 8,
        index == byte_of_bit(index) * 8 + position_of_bit(index),
{
}

/// A write of a bit leaves a well-formed state well formed.
pub proof fn lemma_write_bit_wf(view: BitfieldView, index: nat, value: bool)
    requires
        view.wf(),
    ensures
        view.write_bit(index, value).wf(),
{
    lemma_write_byte_wf(
        view,
        byte_of_bit(index),
        byte_with_bit(view.byte(byte_of_bit(index)), position_of_bit(index), value),
    );
}

/// After a write of a bit, that bit reads as the value written and every
/// other bit reads as before.
pub proof fn lemma_write_bit_reads(view: BitfieldView, index: nat, value: bool, other: nat)
    requires
        view.wf(),
    ensures
        view.write_bit(index, value).bit(index) == value,
        other != index ==> view.write_bit(index, value).bit(other) == view.bit(other),
{
    let byte_index = byte_of_bit(index);
    let position = position_of_bit(index);
    let byte = view.byte(byte_index);
    lemma_byte_with_bit(byte, position, value);
    lemma_write_byte_reads(view, byte_index, byte_with_bit(byte, position, value), byte_of_bit(other));
    if other != index && byte_of_bit(other) == byte_index {
        assert(position_of_bit(other) != position);
        assert(position_of_bit(other) < 8);
    }
}

/// A write of a bit reports a change exactly when the byte that holds the
/// bit differs after it.
pub proof fn lemma_bit_change_is_byte_change(view: BitfieldView, index: nat, value: bool)
    ensures
        view.bit_change(index, value) == view.byte_change(
            byte_of_bit(index),
            byte_with_bit(view.byte(byte_of_bit(index)), position_of_bit(index), value),
        ),
{
    lemma_byte_with_bit(view.byte(byte_of_bit(index)), position_of_bit(index), value);
}

/// A write of a bit never shrinks the byte length, and after it the byte
/// length covers the bit, that is, it is at least `(index + 1) / 8` rounded
/// up.
pub proof fn lemma_write_bit_length(view: BitfieldView, index: nat, value: bool)
    ensures
        view.write_bit(index, value).byte_len >= view.byte_len,
        view.write_bit(index, value).byte_len >= (index + 1 + 7) / 8,
        view.write_bit(index, value).bit_len() > index,
{
}

/// Where a bit differs from the value written, the write reports `Changed`,
/// and the same write made again reports `Unchanged` and leaves the state as
/// it is.
pub proof fn lemma_identical_writes(view: BitfieldView, index: nat, value: bool)
    requires
        view.wf(),
        view.bit(index) != value,
    ensures
        view.bit_change(index, value) == Change::Changed,
        view.write_bit(index, value).bit_change(index, value) == Change::Unchanged,
        view.write_bit(index, value).write_bit(index, value) == view.write_bit(index, value),
{
    lemma_write_bit_reads(view, index, value, index);
    lemma_write_bit_wf(view, index, value);
    lemma_write_byte_length(
        view,
        byte_of_bit(index),
        byte_with_bit(view.byte(byte_of_bit(index)), position_of_bit(index), value),
    );
    lemma_rewrite_is_identity(view.write_bit(index, value), index);
}

/// A write of the value that a bit already has changes nothing in a state
/// whose byte length covers the bit and whose page for it is resident.
pub proof fn lemma_rewrite_is_identity(view: BitfieldView, index: nat)
    requires
        view.wf(),
        view.resident(page_of_byte(byte_of_bit(index), view.page_size)),
        view.byte_len > byte_of_bit(index),
    ensures
        view.write_bit(index, view.bit(index)) == view,
{
    let byte_index = byte_of_bit(index);
    let byte = view.byte(byte_index);
    lemma_byte_with_bit(byte, position_of_bit(index), view.bit(index));
    lemma_power_of_two_positive(view.page_size);
    lemma_byte_address(byte_index, view.page_size);
    let after = view.write_bit(index, view.bit(index));
    assert(after.pages =~= view.pages) by {
        let page = page_of_byte(byte_index, view.page_size);
        assert(view.page(page).update(offset_of_byte(byte_index, view.page_size) as int, byte)
            =~= view.page(page));
    }
}

/// Every write of a sequence of writes leaves a well-formed state well
/// formed.
pub proof fn lemma_write_bits_wf(view: BitfieldView, writes: Seq<(nat, bool)>)
    requires
        view.wf(),
    ensures
        view.write_bits(writes).wf(),
        view.write_bits(writes).page_size == view.page_size,
    decreases writes.len(),
{
    if writes.len() > 0 {
        lemma_write_bits_wf(view, writes.drop_last());
        lemma_write_bit_wf(view.write_bits(writes.drop_last()), writes.last().0, writes.last().1);
    }
}

/// Over any sequence of writes the byte length never shrinks, and after
/// them it covers every bit that was written.
pub proof fn lemma_write_bits_length(view: BitfieldView, writes: Seq<(nat, bool)>)
    ensures
        view.write_bits(writes).byte_len >= view.byte_len,
        forall|k: int|
            0 <= k < writes.len() ==> view.write_bits(writes).bit_len() > (#[trigger] writes[k]).0,
    decreases writes.len(),
{
    if writes.len() > 0 {
        let before = writes.drop_last();
        lemma_write_bits_length(view, before);
        lemma_write_bit_length(view.write_bits(before), writes.last().0, writes.last().1);
        assert forall|k: int| 0 <= k < writes.len() implies view.write_bits(writes).bit_len() > (
        #[trigger] writes[k]).0 by {
            if k < before.len() {
                assert(before[k] == writes[k]);
            }
        }
    }
}

/// A bit that no write of a sequence addresses reads after them as it did
/// before.
pub proof fn lemma_untouched_bit(view: BitfieldView, writes: Seq<(nat, bool)>, index: nat)
    requires
        view.wf(),
        forall|k: int| 0 <= k < writes.len() ==> (#[trigger] writes[k]).0 != index,
    ensures
        view.write_bits(writes).bit(index) == view.bit(index),
    decreases writes.len(),
{
    if writes.len() > 0 {
        let before = writes.drop_last();
        assert forall|k: int| 0 <= k < before.len() implies (#[trigger] before[k]).0 != index by {
            assert(before[k] == writes[k]);
        }
        lemma_untouched_bit(view, before, index);
        lemma_write_bits_wf(view, before);
        lemma_write_bit_reads(view.write_bits(before), writes.last().0, writes.last().1, index);
    }
}

/// An empty bitfield is well formed, and every bit of it reads `false`,
/// however large its index.
pub proof fn lemma_empty_reads_false(page_size: nat, index: nat)
    requires
        power_of_two(page_size),
    ensures
        BitfieldView::empty(page_size).wf(),
        BitfieldView::empty(page_size).bit(index) == false,
{
    lemma_power_of_two_positive(page_size);
    lemma_byte_address(byte_of_bit(index), page_size);
    lemma_bit_position(index);
    let position = position_of_bit(index);
    assert(0u8 & (128u8 >> position) == 0) by (bit_vector);
}

/// In a bitfield that was empty, a bit that no write has addressed reads
/// `false`.
pub proof fn lemma_untouched_reads_false(page_size: nat, writes: Seq<(nat, bool)>, index: nat)
    requires
        power_of_two(page_size),
        forall|k: int| 0 <= k < writes.len() ==> (#[trigger] writes[k]).0 != index,
    ensures
        BitfieldView::empty(page_size).write_bits(writes).bit(index) == false,
{
    lemma_empty_reads_false(page_size, index);
    lemma_untouched_bit(BitfieldView::empty(page_size), writes, index);
}

/// Where a bit differs from `first`, every one of any number of writes to
/// it that alternate between `first` and its negation reports `Changed`:
/// write `k` of `count`, made after the `k` writes before it.
pub proof fn lemma_toggle_always_changes(
    view: BitfieldView,
    index: nat,
    first: bool,
    count: nat,
    k: nat,
)
    requires
        view.wf(),
        view.bit(index) != first,
        k < count,
    ensures
        view.write_bits(alternating_writes(index, first, count).take(k as int)).wf(),
        view.write_bits(alternating_writes(index, first, count).take(k as int)).bit_change(
            index,
            alternating_writes(index, first, count)[k as int].1,
        ) == Change::Changed,
    decreases k,
{
    let writes = alternating_writes(index, first, count);
    let done = writes.take(k as int);
    lemma_write_bits_wf(view, done);
    if k == 0 {
        assert(view.write_bits(done) == view);
    } else {
        let before = writes.take(k - 1);
        assert(done.drop_last() =~= before);
        assert(done.last() == writes[k - 1]);
        lemma_write_bits_wf(view, before);
        lemma_write_bit_reads(view.write_bits(before), index, writes[k - 1].1, index);
    }
}

} // verus!
