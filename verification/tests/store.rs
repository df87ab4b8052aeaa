use memory_pager::{Page, Pager};
use sparse_bitfield::{Bitfield, Change, Error};

#[test]
fn from_empty_pager() {
    let bits = Bitfield::from_pager(Pager::new(1024)).unwrap();
    assert_eq!(bits.page_size(), 1024);
    assert_eq!(bits.page_len(), 0);
    assert_eq!(bits.byte_len(), 0);
    assert!(bits.is_empty());
}

#[test]
fn from_pager_counts_every_page_slot() {
    let mut pager = Pager::new(8);
    pager.get_mut_or_alloc(3)[2] = 0b0100_0000;
    let mut bits = Bitfield::from_pager(pager).unwrap();
    assert_eq!(bits.page_size(), 8);
    assert_eq!(bits.page_len(), 4);
    assert_eq!(bits.byte_len(), 32);
    assert_eq!(bits.len(), 256);
    assert!(!bits.is_empty());
    assert_eq!(bits.get_byte(26), 0b0100_0000);
    assert_eq!(bits.get(26 * 8 + 1), true);
    assert_eq!(bits.get(26 * 8), false);
    assert_eq!(bits.get(0), false);
    let mut expected = vec![0u8; 32];
    expected[26] = 0b0100_0000;
    assert_eq!(bits.to_bytes().unwrap(), expected);
    assert_eq!(bits.set(26 * 8 + 1, true), Change::Unchanged);
    assert_eq!(bits.set(100, false), Change::Unchanged);
    assert_eq!(bits.byte_len(), 32);
    assert_eq!(bits.page_len(), 4);
    assert_eq!(bits.set(8 * 40, true), Change::Changed);
    assert_eq!(bits.byte_len(), 41);
    assert_eq!(bits.page_len(), 6);
}

#[test]
fn from_pager_keeps_trailing_absent_pages() {
    let mut pager = Pager::new(4);
    pager.get_mut_or_alloc(2);
    pager.get_mut_or_alloc(0)[1] = 7;
    let bits = Bitfield::from_pager(pager).unwrap();
    assert_eq!(bits.page_len(), 3);
    assert_eq!(bits.byte_len(), 12);
    assert_eq!(bits.to_bytes().unwrap(), vec![0, 7, 0, 0, 0, 0, 0, 0, 0, 0, 0, 0]);
}

#[test]
fn from_pager_rejects_page_size_6() {
    assert_eq!(Bitfield::from_pager(Pager::new(6)).err(), Some(Error::PageSize));
}

#[test]
fn from_pager_rejects_page_size_2566() {
    assert_eq!(Bitfield::from_pager(Pager::new(2566)).err(), Some(Error::PageSize));
}

#[test]
fn from_pager_rejects_page_size_0() {
    assert_eq!(Bitfield::from_pager(Pager::new(0)).err(), Some(Error::PageSize));
}

#[test]
fn from_pager_rejects_a_short_page() {
    let mut pager = Pager::new(4);
    pager.get_mut_or_alloc(0);
    *pager.get_mut_or_alloc(1) = Page::new(1, vec![1, 2, 3]);
    assert_eq!(Bitfield::from_pager(pager).err(), Some(Error::PageLength));
}

#[test]
fn from_pager_rejects_a_long_page() {
    let mut pager = Pager::new(2);
    *pager.get_mut_or_alloc(0) = Page::new(0, vec![1, 2, 3]);
    assert_eq!(Bitfield::from_pager(pager).err(), Some(Error::PageLength));
}

#[test]
fn from_pager_names_the_page_size_first() {
    let mut pager = Pager::new(3);
    *pager.get_mut_or_alloc(0) = Page::new(0, vec![1]);
    assert_eq!(Bitfield::from_pager(pager).err(), Some(Error::PageSize));
}
