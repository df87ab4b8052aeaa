use sparse_bitfield::{is_power_of_two, Bitfield, Change};

#[test]
fn power_of_two_gate() {
    assert!(!is_power_of_two(6));
    assert!(!is_power_of_two(2566));
    assert!(is_power_of_two(1024));
}

#[test]
fn power_of_two_edges() {
    assert!(!is_power_of_two(0));
    assert!(is_power_of_two(1));
    assert!(is_power_of_two(2));
    assert!(!is_power_of_two(3));
    assert!(is_power_of_two(1 << 31));
    assert!(!is_power_of_two((1 << 31) + 1));
    assert!(is_power_of_two(1 << (usize::BITS - 1)));
    assert!(!is_power_of_two(usize::MAX));
    for exponent in 0..usize::BITS {
        assert!(is_power_of_two(1usize << exponent));
        assert_eq!(is_power_of_two(1usize << exponent), (1usize << exponent).is_power_of_two());
    }
    for n in 0..5000usize {
        assert_eq!(is_power_of_two(n), n.is_power_of_two());
    }
}

#[test]
fn default_page_size_is_1024() {
    let bits = Bitfield::default();
    assert_eq!(bits.page_size(), 1024);
    assert_eq!(bits.byte_len(), 0);
    assert_eq!(bits.page_len(), 0);
    assert!(bits.is_empty());
}

#[test]
fn new_keeps_page_size() {
    let bits = Bitfield::new(4096);
    assert_eq!(bits.page_size(), 4096);
    let bits = Bitfield::new(1);
    assert_eq!(bits.page_size(), 1);
}

#[test]
fn round_trip() {
    let indices = [0usize, 1, 7, 8, 9, 63, 64, 8191, 8192, 9000, 1_000_000, 123_456_789];
    for page_exponent in [0usize, 1, 3, 10, 12] {
        let mut bits = Bitfield::new(1 << page_exponent);
        for &i in indices.iter() {
            if page_exponent == 0 && i > 1_000_000 {
                continue;
            }
            bits.set(i, true);
            assert_eq!(bits.get(i), true);
            bits.set(i, false);
            assert_eq!(bits.get(i), false);
            bits.set(i, true);
            assert_eq!(bits.get(i), true);
        }
        for &i in indices.iter() {
            if page_exponent == 0 && i > 1_000_000 {
                continue;
            }
            assert_eq!(bits.get(i), true);
        }
    }
}

#[test]
fn write_leaves_other_bits() {
    let mut bits = Bitfield::new(8);
    bits.set(3, true);
    bits.set(12, true);
    bits.set(700, true);
    bits.set(12, false);
    for i in 0..1024usize {
        assert_eq!(bits.get(i), i == 3 || i == 700);
    }
}

#[test]
fn identical_writes() {
    for &i in [0usize, 5, 8, 9000, 77_777].iter() {
        let mut bits = Bitfield::new(1024);
        assert_eq!(bits.set(i, true), Change::Changed);
        assert_eq!(bits.set(i, true), Change::Unchanged);
        assert_eq!(bits.set(i, false), Change::Changed);
        assert_eq!(bits.set(i, false), Change::Unchanged);
    }
}

#[test]
fn clearing_an_untouched_bit_is_unchanged() {
    let mut bits = Bitfield::new(1024);
    assert_eq!(bits.set(9, false), Change::Unchanged);
    assert_eq!(bits.byte_len(), 2);
    assert_eq!(bits.page_len(), 1);
    assert!(!bits.is_empty());
}

#[test]
fn toggle_always_changes() {
    let mut bits = Bitfield::new(1024);
    let mut value = true;
    for _ in 0..50 {
        assert_eq!(bits.set(4321, value), Change::Changed);
        assert_eq!(bits.get(4321), value);
        value = !value;
    }
}

#[test]
fn length_never_decreases() {
    let mut bits = Bitfield::new(64);
    let writes = [(100usize, true), (3, true), (100, false), (2047, false), (0, true), (2048, true)];
    let mut last = bits.byte_len();
    for &(i, v) in writes.iter() {
        bits.set(i, v);
        assert!(bits.byte_len() >= last);
        assert!(bits.byte_len() >= (i + 1 + 7) / 8);
        last = bits.byte_len();
    }
    assert_eq!(bits.byte_len(), 257);
    assert_eq!(bits.len(), 2056);
}

#[test]
fn length_tracks_addressed_bytes() {
    let mut bits = Bitfield::new(1024);
    assert_eq!(bits.len(), 0);
    bits.set(0, true);
    assert_eq!(bits.len(), 8);
    bits.set(1, true);
    assert_eq!(bits.len(), 8);
    bits.set(9, false);
    assert_eq!(bits.len(), 16);
}

#[test]
fn byte_length_tracks_addressed_bytes() {
    let mut bits = Bitfield::new(1024);
    assert_eq!(bits.byte_len(), 0);
    bits.set(0, true);
    assert_eq!(bits.byte_len(), 1);
    bits.set(1, true);
    assert_eq!(bits.byte_len(), 1);
    bits.set(9, false);
    assert_eq!(bits.byte_len(), 2);
}

#[test]
fn page_length_tracks_addressed_pages() {
    let mut bits = Bitfield::new(1024);
    assert_eq!(bits.page_len(), 0);
    bits.set(0, true);
    assert_eq!(bits.page_len(), 1);
    bits.set(1, true);
    assert_eq!(bits.page_len(), 1);
    bits.set(2, false);
    assert_eq!(bits.page_len(), 1);
    bits.set(1024 * 8 + 1, true);
    assert_eq!(bits.page_len(), 2);
}

#[test]
fn emptiness() {
    let mut bits = Bitfield::new(1024);
    assert!(bits.is_empty());
    bits.set(0, true);
    assert!(!bits.is_empty());
}

#[test]
fn sparse_zero_read() {
    let bits = Bitfield::new(1024);
    assert_eq!(bits.get(0), false);
    assert_eq!(bits.get(1_000_000_000_000), false);
    assert_eq!(bits.get(usize::MAX), false);
    assert_eq!(bits.get_byte(usize::MAX), 0);
    assert_eq!(bits.page_len(), 0);
    assert_eq!(bits.byte_len(), 0);
    assert!(bits.is_empty());
}

#[test]
fn sparse_zero_read_after_writes() {
    let mut bits = Bitfield::new(1024);
    bits.set(9000, true);
    assert_eq!(bits.get(8999), false);
    assert_eq!(bits.get(9001), false);
    assert_eq!(bits.get(0), false);
    assert_eq!(bits.get(1_000_000_000_000), false);
    assert_eq!(bits.page_len(), 2);
}

#[test]
fn page_scenario() {
    let mut bits = Bitfield::new(1024);
    assert_eq!(bits.set(9000, true), Change::Changed);
    assert_eq!(bits.page_len(), 2);
    assert_eq!(bits.byte_len(), 1126);
    assert_eq!(bits.len(), 9008);
    assert_eq!(bits.get_byte(1125), 128);
    assert_eq!(bits.get_byte(1124), 0);
    let bytes = bits.to_bytes().unwrap();
    assert_eq!(bytes.len(), 2048);
    assert_eq!(bytes[1024 + 101], 128);
    assert_eq!(bytes.iter().filter(|b| **b != 0).count(), 1);
}

#[test]
fn bit_zero_is_most_significant() {
    let mut bits = Bitfield::new(16);
    bits.set(0, true);
    assert_eq!(bits.get_byte(0), 128);
    bits.set(7, true);
    assert_eq!(bits.get_byte(0), 129);
    bits.set(1, true);
    assert_eq!(bits.get_byte(0), 193);
    bits.set(0, false);
    assert_eq!(bits.get_byte(0), 65);
    bits.set(9, true);
    assert_eq!(bits.get_byte(1), 64);
    bits.set(15, true);
    assert_eq!(bits.get_byte(1), 65);
}

#[test]
fn bytes_round_trip() {
    let mut bits = Bitfield::new(4);
    assert_eq!(bits.set_byte(5, 0xAB), Change::Changed);
    assert_eq!(bits.get_byte(5), 0xAB);
    assert_eq!(bits.set_byte(5, 0xAB), Change::Unchanged);
    assert_eq!(bits.byte_len(), 6);
    assert_eq!(bits.page_len(), 2);
    assert_eq!(bits.set_byte(5, 0), Change::Changed);
    assert_eq!(bits.get_byte(5), 0);
    assert_eq!(bits.byte_len(), 6);
    assert_eq!(bits.get_byte(4), 0);
    assert_eq!(bits.get_byte(6), 0);
    for k in 0..8 {
        assert_eq!(bits.get(40 + k), false);
    }
    bits.set_byte(5, 0b1010_0001);
    let expected = [true, false, true, false, false, false, false, true];
    for k in 0..8 {
        assert_eq!(bits.get(40 + k), expected[k]);
    }
}

#[test]
fn writing_zero_still_allocates_and_grows() {
    let mut bits = Bitfield::new(1024);
    assert_eq!(bits.set_byte(3000, 0), Change::Unchanged);
    assert_eq!(bits.byte_len(), 3001);
    assert_eq!(bits.page_len(), 3);
    assert!(!bits.is_empty());
    assert_eq!(bits.to_bytes().unwrap(), vec![0u8; 3072]);
}

#[test]
fn byte_addresses_with_small_pages() {
    let mut bits = Bitfield::new(2);
    bits.set_byte(0, 1);
    bits.set_byte(1, 2);
    bits.set_byte(2, 3);
    bits.set_byte(7, 8);
    assert_eq!(bits.page_len(), 4);
    assert_eq!(bits.byte_len(), 8);
    assert_eq!(bits.to_bytes().unwrap(), vec![1, 2, 3, 0, 0, 0, 0, 8]);
}

#[test]
fn page_size_one() {
    let mut bits = Bitfield::new(1);
    bits.set(17, true);
    assert_eq!(bits.page_len(), 3);
    assert_eq!(bits.byte_len(), 3);
    assert_eq!(bits.to_bytes().unwrap(), vec![0, 0, 64]);
}

#[test]
fn flatten_empty() {
    let bits = Bitfield::new(1024);
    assert_eq!(bits.to_bytes(), Ok(vec![]));
}

#[test]
fn flatten_includes_the_whole_last_page() {
    let mut bits = Bitfield::new(8);
    bits.set(0, true);
    assert_eq!(bits.byte_len(), 1);
    assert_eq!(bits.to_bytes().unwrap(), vec![128, 0, 0, 0, 0, 0, 0, 0]);
    bits.set(8 * 17 + 7, true);
    assert_eq!(bits.byte_len(), 18);
    let mut expected = vec![0u8; 24];
    expected[0] = 128;
    expected[17] = 1;
    assert_eq!(bits.to_bytes().unwrap(), expected);
}

#[test]
fn doesnt_crash() {
    let sample = [0usize, 1, 2, 7, 8, 15, 16, 255, 256, 1023, 1024, 4095, 65_535, 65_536, 332_288, 999_999];
    for page_sz_exponent in 0usize..30 {
        for &bit in sample.iter() {
            let mut bits = Bitfield::new(1 << page_sz_exponent);
            assert_eq!(bits.set(bit, true), Change::Changed);
            assert_eq!(bits.get(bit), true);
        }
    }
}
