use static_atom::dense_map::DenseAtomMap;
use static_atom::identity::{Atom, AtomTable};
use static_atom::typed_map::{Mapping, Marker0, Marker1, Marker2, TypedAtomMap, TypedMap3};

fn vocab(entries: &[&str]) -> Vec<Vec<u8>> {
    entries.iter().map(|s| s.as_bytes().to_vec()).collect()
}

fn table() -> AtomTable {
    AtomTable::new(vocab(&["BTC-EUR", "ETH-EUR", "ETH-BTC"])).unwrap()
}

fn atoms(t: &AtomTable) -> (Atom, Atom, Atom) {
    (
        t.atom_from_ordinal(0).unwrap(),
        t.atom_from_ordinal(1).unwrap(),
        t.atom_from_ordinal(2).unwrap(),
    )
}

#[test]
fn insert_then_get_returns_the_value() {
    let t = table();
    let (a0, a1, _) = atoms(&t);
    let mut m: DenseAtomMap<u32> = DenseAtomMap::new(t.len());
    assert_eq!(m.insert(a0, 10), None);
    assert_eq!(m.get(a0), Some(&10));
    assert_eq!(m.get(a1), None);
}

#[test]
fn insert_returns_prior_value() {
    let t = table();
    let (a0, _, _) = atoms(&t);
    let mut m: DenseAtomMap<u32> = DenseAtomMap::new(t.len());
    assert_eq!(m.insert(a0, 10), None);
    assert_eq!(m.insert(a0, 11), Some(10));
    assert_eq!(m.get(a0), Some(&11));
}

#[test]
fn remove_then_get_returns_nothing() {
    let t = table();
    let (a0, a1, _) = atoms(&t);
    let mut m: DenseAtomMap<u32> = DenseAtomMap::new(t.len());
    m.insert(a0, 10);
    m.insert(a1, 20);
    assert_eq!(m.remove(a0), Some(10));
    assert_eq!(m.get(a0), None);
    // the other slot is untouched
    assert_eq!(m.get(a1), Some(&20));
    assert_eq!(m.remove(a0), None);
}

#[test]
fn get_mut_updates_in_place() {
    let t = table();
    let (a0, _, _) = atoms(&t);
    let mut m: DenseAtomMap<u32> = DenseAtomMap::new(t.len());
    m.insert(a0, 1);
    if let Some(v) = m.get_mut(a0) {
        *v = 99;
    }
    assert_eq!(m.get(a0), Some(&99));
}

#[test]
fn get_or_insert_keeps_existing_and_fills_empty() {
    let t = table();
    let (a0, a1, _) = atoms(&t);
    let mut m: DenseAtomMap<u32> = DenseAtomMap::new(t.len());
    m.insert(a0, 5);
    assert_eq!(*m.get_or_insert(a0, 7), 5);
    assert_eq!(*m.get_or_insert(a1, 7), 7);
    assert_eq!(m.get(a1), Some(&7));
}

#[test]
fn get_or_insert_with_calls_only_when_empty() {
    let t = table();
    let (a0, a1, _) = atoms(&t);
    let mut m: DenseAtomMap<u32> = DenseAtomMap::new(t.len());
    m.insert(a0, 5);
    assert_eq!(*m.get_or_insert_with(a0, || 42), 5);
    assert_eq!(*m.get_or_insert_with(a1, || 42), 42);
    assert_eq!(m.get(a1), Some(&42));
}

#[test]
fn iteration_visits_populated_ordinals_ascending() {
    let t = table();
    let (a0, a1, a2) = atoms(&t);
    let mut m: DenseAtomMap<u32> = DenseAtomMap::new(t.len());
    m.insert(a2, 30);
    m.insert(a0, 10);
    // slot 1 left empty on purpose
    let mut it = m.iter();
    let mut seen: Vec<(usize, u32)> = Vec::new();
    while let Some((a, v)) = it.next() {
        seen.push((t.ordinal_of(a), *v));
    }
    assert_eq!(seen, vec![(0, 10), (2, 30)]);

    let mut keys = m.keys();
    let mut ks: Vec<usize> = Vec::new();
    while let Some(a) = keys.next() {
        ks.push(t.ordinal_of(a));
    }
    assert_eq!(ks, vec![0, 2]);

    let mut values = m.values();
    let mut vs: Vec<u32> = Vec::new();
    while let Some(v) = values.next() {
        vs.push(*v);
    }
    assert_eq!(vs, vec![10, 30]);
    let _ = a1;
}

#[test]
fn iter_mut_updates_every_populated_slot() {
    let t = table();
    let (a0, a1, a2) = atoms(&t);
    let mut m: DenseAtomMap<u32> = DenseAtomMap::new(t.len());
    m.insert(a0, 1);
    m.insert(a2, 3);
    {
        let mut it = m.iter_mut();
        while let Some((_, v)) = it.next() {
            *v += 100;
        }
    }
    assert_eq!(m.get(a0), Some(&101));
    assert_eq!(m.get(a1), None);
    assert_eq!(m.get(a2), Some(&103));
}

#[test]
fn entry_views_match_contents() {
    let t = table();
    let (a0, a1, _) = atoms(&t);
    let mut m: DenseAtomMap<&'static str> = DenseAtomMap::new(t.len());
    assert!(m.entry(a0).is_none());
    m.insert(a0, "x");
    assert_eq!(*m.entry(a0), Some("x"));
    let e = m.entry_mut(a1);
    *e = Some("y");
    assert_eq!(m.get(a1), Some(&"y"));
    assert_eq!(m.len(), 3);
}

struct PriceMapping;

impl Mapping<Marker0> for PriceMapping {
    type Value = u32;
}

impl Mapping<Marker1> for PriceMapping {
    type Value = String;
}

impl Mapping<Marker2> for PriceMapping {
    type Value = bool;
}

#[test]
fn typed_slots_hold_distinct_types() {
    let mut m: TypedMap3<PriceMapping> = TypedMap3::new();
    assert_eq!(TypedAtomMap::<Marker0, _>::insert(&mut m, 42u32), None);
    assert_eq!(
        TypedAtomMap::<Marker1, _>::insert(&mut m, String::from("mid")),
        None
    );
    assert_eq!(TypedAtomMap::<Marker0, _>::get(&m), Some(&42u32));
    assert_eq!(
        TypedAtomMap::<Marker1, _>::get(&m),
        Some(&String::from("mid"))
    );
    assert_eq!(TypedAtomMap::<Marker2, _>::get(&m), None::<&bool>);
}

#[test]
fn typed_slots_are_isolated() {
    let mut m: TypedMap3<PriceMapping> = TypedMap3::new();
    TypedAtomMap::<Marker0, _>::insert(&mut m, 7u32);
    // writing and clearing under other markers never touches slot 0
    TypedAtomMap::<Marker1, _>::insert(&mut m, String::from("q"));
    TypedAtomMap::<Marker2, _>::insert(&mut m, true);
    assert_eq!(TypedAtomMap::<Marker1, _>::remove(&mut m), Some(String::from("q")));
    assert_eq!(TypedAtomMap::<Marker0, _>::get(&m), Some(&7u32));
    assert_eq!(TypedAtomMap::<Marker2, _>::get(&m), Some(&true));
}

#[test]
fn typed_get_mut_updates_one_slot() {
    let mut m: TypedMap3<PriceMapping> = TypedMap3::new();
    TypedAtomMap::<Marker0, _>::insert(&mut m, 1u32);
    TypedAtomMap::<Marker2, _>::insert(&mut m, false);
    if let Some(v) = TypedAtomMap::<Marker0, _>::get_mut(&mut m) {
        *v = 2;
    }
    assert_eq!(TypedAtomMap::<Marker1, _>::get_mut(&mut m), None::<&mut String>);
    assert_eq!(TypedAtomMap::<Marker0, _>::get(&m), Some(&2u32));
    assert_eq!(TypedAtomMap::<Marker2, _>::get(&m), Some(&false));
}

#[test]
fn typed_get_or_insert() {
    let mut m: TypedMap3<PriceMapping> = TypedMap3::new();
    assert_eq!(*TypedAtomMap::<Marker0, _>::get_or_insert(&mut m, 9u32), 9);
    assert_eq!(*TypedAtomMap::<Marker0, _>::get_or_insert(&mut m, 8u32), 9);
    assert_eq!(
        *TypedAtomMap::<Marker2, _>::get_or_insert_with(&mut m, || false),
        false
    );
    let prev = TypedAtomMap::<Marker0, _>::remove(&mut m);
    assert_eq!(prev, Some(9));
    assert_eq!(TypedAtomMap::<Marker0, _>::get(&m), None::<&u32>);
}
