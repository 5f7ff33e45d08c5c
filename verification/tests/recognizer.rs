use static_atom::errors::{BuildError, OrdinalRangeError, ParseFailure};
use static_atom::identity::AtomTable;

fn vocab(entries: &[&str]) -> Vec<Vec<u8>> {
    entries.iter().map(|s| s.as_bytes().to_vec()).collect()
}

fn small_table() -> AtomTable {
    AtomTable::new(vocab(&["BTC-EUR", "ETH-EUR", "ETH-BTC"])).unwrap()
}

const BIG: &[&str] = &[
    "BTC-EUR", "ETH-EUR", "ETH-BTC", "BTC-USDC", "ETH-USDC", "ETC-BTC", "ETC-EUR", "BTC-USD",
    "BCH-BTC", "BCH-USD", "BTC-GBP", "ETH-USD", "LTC-BTC", "LTC-EUR", "LTC-USD", "BCH-EUR",
    "ETC-USD", "ZRX-USD", "ZRX-BTC", "ZRX-EUR", "ETC-GBP", "ETH-GBP", "LTC-GBP", "BCH-GBP",
];

#[test]
fn empty_vocabulary_is_rejected() {
    assert_eq!(AtomTable::new(Vec::new()).err(), Some(BuildError::EmptyVocabulary));
}

#[test]
fn duplicate_entry_is_rejected() {
    let r = AtomTable::new(vocab(&["BTC-EUR", "ETH-EUR", "BTC-EUR"]));
    assert_eq!(r.err(), Some(BuildError::DuplicateEntry));
}

#[test]
fn small_scenarios() {
    let t = small_table();
    assert_eq!(t.len(), 3);
    let a0 = t.parse(b"BTC-EUR").expect("declared atom");
    let a1 = t.parse(b"ETH-EUR").expect("declared atom");
    let a2 = t.parse(b"ETH-BTC").expect("declared atom");
    assert_eq!(t.ordinal_of(a0), 0);
    assert_eq!(t.ordinal_of(a1), 1);
    assert_eq!(t.ordinal_of(a2), 2);
    assert_eq!(t.parse(b""), Err(ParseFailure));
    assert_eq!(t.parse(b"ETH-"), Err(ParseFailure));
    assert_eq!(t.parse(b"ETH-EURzzz"), Err(ParseFailure));
    assert_eq!(t.parse(b"eTH-EUR"), Err(ParseFailure));
    assert_eq!(t.parse(b"ETH-EUr"), Err(ParseFailure));
}

#[test]
fn round_trip_small() {
    let t = small_table();
    for n in 0..t.len() {
        let a = t.atom_from_ordinal(n).expect("in range");
        let text = t.text_of(a).clone();
        assert_eq!(t.parse(&text), Ok(a));
        assert_eq!(t.ordinal_of(a), n);
    }
}

#[test]
fn round_trip_big() {
    let t = AtomTable::new(vocab(BIG)).expect("distinct vocabulary");
    assert_eq!(t.len(), BIG.len());
    for (n, s) in BIG.iter().enumerate() {
        let a = t.parse(s.as_bytes()).expect("declared atom");
        assert_eq!(t.ordinal_of(a), n);
        assert_eq!(t.text_of(a).as_slice(), s.as_bytes());
        assert_eq!(t.atom_from_ordinal(n), Ok(a));
    }
}

#[test]
fn mixed_lengths_dispatch_by_length() {
    // lengths 7 and 8 coexist; each input reaches only its own class
    let t = AtomTable::new(vocab(BIG)).unwrap();
    let a = t.parse(b"BTC-USDC").expect("eight-byte atom");
    assert_eq!(t.ordinal_of(a), 3);
    let b = t.parse(b"BTC-USD").expect("seven-byte atom");
    assert_eq!(t.ordinal_of(b), 7);
    assert_eq!(t.parse(b"BTC-USDX"), Err(ParseFailure));
    assert_eq!(t.parse(b"BTC-US"), Err(ParseFailure));
}

#[test]
fn truncated_extended_and_mutated_inputs_fail() {
    let t = AtomTable::new(vocab(BIG)).unwrap();
    let declared = |candidate: &[u8]| BIG.iter().any(|e| e.as_bytes() == candidate);
    for s in BIG {
        let bytes = s.as_bytes();
        // truncated: a proper prefix succeeds only if it is itself declared
        // (for example a seven-byte atom that another atom extends)
        for k in 0..bytes.len() {
            let prefix = &bytes[..k];
            assert_eq!(t.parse(prefix).is_ok(), declared(prefix), "prefix of {s} at {k}");
        }
        // extended
        let mut longer = bytes.to_vec();
        longer.push(b'z');
        assert_eq!(t.parse(&longer), Err(ParseFailure));
        // single-byte mutations
        for k in 0..bytes.len() {
            let mut mutated = bytes.to_vec();
            mutated[k] = mutated[k].wrapping_add(1);
            assert_eq!(t.parse(&mutated).is_ok(), declared(&mutated), "mutation of {s} at {k}");
        }
    }
}

#[test]
fn ordinal_out_of_range_fails() {
    let t = small_table();
    assert_eq!(t.atom_from_ordinal(3), Err(OrdinalRangeError));
    assert_eq!(t.atom_from_ordinal(usize::MAX), Err(OrdinalRangeError));
    for n in 0..3 {
        assert!(t.atom_from_ordinal(n).is_ok());
    }
}

#[test]
fn single_entry_vocabulary() {
    let t = AtomTable::new(vocab(&["GO"])).unwrap();
    let a = t.parse(b"GO").unwrap();
    assert_eq!(t.ordinal_of(a), 0);
    assert_eq!(t.parse(b"G"), Err(ParseFailure));
    assert_eq!(t.parse(b"GOO"), Err(ParseFailure));
    assert_eq!(t.parse(b"NO"), Err(ParseFailure));
}

#[test]
fn shared_prefix_discrimination() {
    // candidates that agree for a long run and split late
    let t = AtomTable::new(vocab(&["AAAAAAAAX", "AAAAAAAAY", "AAAAAAAAZ"])).unwrap();
    assert_eq!(t.ordinal_of(t.parse(b"AAAAAAAAX").unwrap()), 0);
    assert_eq!(t.ordinal_of(t.parse(b"AAAAAAAAY").unwrap()), 1);
    assert_eq!(t.ordinal_of(t.parse(b"AAAAAAAAZ").unwrap()), 2);
    assert_eq!(t.parse(b"AAAAAAAAW"), Err(ParseFailure));
    assert_eq!(t.parse(b"AAAAAAAA"), Err(ParseFailure));
}

#[test]
fn arbitrary_byte_vocabulary() {
    let t = AtomTable::new(vec![vec![0xff, 0x00], vec![0xff, 0x01], vec![0x00]]).unwrap();
    assert_eq!(t.ordinal_of(t.parse(&[0xff, 0x00]).unwrap()), 0);
    assert_eq!(t.ordinal_of(t.parse(&[0xff, 0x01]).unwrap()), 1);
    assert_eq!(t.ordinal_of(t.parse(&[0x00]).unwrap()), 2);
    assert_eq!(t.parse(&[0xff, 0x02]), Err(ParseFailure));
    assert_eq!(t.parse(&[0x01]), Err(ParseFailure));
}
