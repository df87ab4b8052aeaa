use sparse_bitfield::Bitfield;

#[test]
fn iteration_is_exact() {
    let mut bits = Bitfield::new(1024);
    bits.set(0, true);
    let items = bits.iter().collect();
    assert_eq!(items.len(), bits.len());
    assert_eq!(items, vec![true, false, false, false, false, false, false, false]);
}

#[test]
fn iteration_of_empty_yields_nothing() {
    let bits = Bitfield::new(1024);
    let mut iter = bits.iter();
    assert_eq!(iter.next(), None);
    assert_eq!(iter.next(), None);
    assert_eq!(bits.iter().collect(), Vec::<bool>::new());
}

#[test]
fn iteration_follows_get() {
    let mut bits = Bitfield::new(2);
    bits.set(3, true);
    bits.set(20, true);
    bits.set(21, true);
    bits.set(39, false);
    let items = bits.iter().collect();
    assert_eq!(items.len(), 40);
    for (i, bit) in items.iter().enumerate() {
        assert_eq!(*bit, bits.get(i));
        assert_eq!(*bit, i == 3 || i == 20 || i == 21);
    }
}

#[test]
fn iteration_ends_and_stays_ended() {
    let mut bits = Bitfield::new(4);
    bits.set(9, true);
    let mut iter = bits.iter();
    let mut seen = Vec::new();
    for _ in 0..16 {
        seen.push(iter.next().unwrap());
    }
    assert_eq!(iter.next(), None);
    assert_eq!(iter.next(), None);
    let mut expected = vec![false; 16];
    expected[9] = true;
    assert_eq!(seen, expected);
}

#[test]
fn iteration_restarts() {
    let mut bits = Bitfield::new(4);
    bits.set(1, true);
    let mut first = bits.iter();
    assert_eq!(first.next(), Some(false));
    assert_eq!(first.next(), Some(true));
    let mut second = bits.iter();
    assert_eq!(second.next(), Some(false));
    assert_eq!(first.next(), Some(false));
}

#[test]
fn collect_yields_what_remains() {
    let mut bits = Bitfield::new(4);
    bits.set(2, true);
    let mut iter = bits.iter();
    assert_eq!(iter.next(), Some(false));
    assert_eq!(iter.next(), Some(false));
    assert_eq!(iter.collect(), vec![true, false, false, false, false, false]);
}
