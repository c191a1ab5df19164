use std::collections::HashMap;

use lzr::atom::{
    Atom, AtomError, AtomId, AtomMapping, AtomMemory, AtomTable, COMMIT_SIZE, HEADER_SIZE,
    MAX_ATOM_SIZE, MAX_TEXT_SIZE, TABLE_FLAGS,
};
use lzr::hash::{fnv1a_hash, Hashable};
use lzr::info::SystemInfo;
use lzr::page::{Page, PAGE_READ, PAGE_WRITE};

fn machine(granularity: usize) -> SystemInfo {
    SystemInfo { num_cpus: 4, page_size: granularity, allocation_granularity: granularity }
}

const ARENA_AT: usize = 0x1000_0000;
const INDEX_AT: usize = 0x4000_0000;

fn make_table(max_atoms: usize, granularity: usize) -> Option<AtomTable> {
    let (arena, index) = AtomTable::reserve(max_atoms, &machine(granularity))?;
    AtomTable::new(
        max_atoms,
        Some(Page::at(ARENA_AT, arena.len)),
        Some(Page::at(INDEX_AT, index.len)),
    )
}

#[test]
fn test_atom_table() {
    const TEST_ATOMS: &'static [&'static [u8]] = &[
        b"atom", b"table", b"is", b"working",
        b"#this", b"!is", b"@nother", b"^est",
        b"012", b"345", b"678", b"90-",
        b"Kernel.Module.Example.Atom",
    ];

    let mut atom_table = make_table(5, 4096).unwrap();
    let mut map = HashMap::with_capacity(TEST_ATOMS.len());

    for test_atom in TEST_ATOMS {
        assert!(atom_table.find(test_atom).is_none());
        let atom_ptr = atom_table.emplace(test_atom).unwrap();
        assert!(atom_table.get(atom_ptr).is_some());
        map.insert(test_atom, atom_ptr);
    }

    for test_atom in TEST_ATOMS {
        let atom_ptr = atom_table.find(test_atom).unwrap();
        let real_ptr = map.get(test_atom).unwrap();
        assert_eq!(*real_ptr, atom_ptr);
    }
}

#[test]
fn emplace_is_idempotent() {
    let mut table = make_table(16, 4096).unwrap();
    let first = table.emplace(b"symbol").unwrap();
    let used = table.used();
    for _ in 0..10 {
        assert_eq!(table.emplace(b"symbol"), Some(first));
    }
    assert_eq!(table.len(), 1);
    assert_eq!(table.used(), used);
    assert_eq!(table.find(b"symbol"), Some(first));
}

#[test]
fn handles_count_up_from_zero() {
    let mut table = make_table(16, 4096).unwrap();
    assert_eq!(table.emplace(b"a"), Some(AtomId(0)));
    assert_eq!(table.emplace(b"b"), Some(AtomId(1)));
    assert_eq!(table.emplace(b"a"), Some(AtomId(0)));
    assert_eq!(table.emplace(b""), Some(AtomId(2)));
    assert_eq!(table.len(), 3);
}

#[test]
fn colliding_texts_get_distinct_atoms() {
    let pairs: [(&[u8], &[u8]); 3] = [
        (b"costarring", b"liquid"),
        (b"declinate", b"macallums"),
        (b"altarage", b"zinke"),
    ];
    let mut table = make_table(8, 4096).unwrap();
    for (left, right) in pairs {
        assert_eq!(fnv1a_hash(left), fnv1a_hash(right));
        let first = table.emplace(left).unwrap();
        let second = table.emplace(right).unwrap();
        assert_ne!(first, second);
        assert_eq!(table.find(left), Some(first));
        assert_eq!(table.find(right), Some(second));
        assert_eq!(table.get(first).unwrap().as_bytes(), left);
        assert_eq!(table.get(second).unwrap().as_bytes(), right);
    }
    assert_eq!(fnv1a_hash(b"costarring"), 0x5e4daa9d);
}

#[test]
fn longest_text_is_255_bytes() {
    let mut table = make_table(4, 4096).unwrap();
    let long = [b'x'; 256];
    assert_eq!(table.emplace(&long), None);
    assert_eq!(table.try_emplace(&long), Err(AtomError::TextTooLong));
    assert_eq!(table.find(&long), None);
    assert_eq!(table.len(), 0);
    let fits = [b'x'; 255];
    let id = table.emplace(&fits).unwrap();
    assert_eq!(table.get(id).unwrap().len(), MAX_TEXT_SIZE);
    assert_eq!(table.get(id).unwrap().as_bytes(), &fits[..]);
    assert_eq!(table.used(), MAX_ATOM_SIZE);
}

#[test]
fn growth_keeps_every_atom_and_its_handle() {
    let mut table = make_table(5, 4096).unwrap();
    let capacity = table.slots();
    assert_eq!(capacity, 8);
    let count = 4 * capacity + 1;
    let mut handles = Vec::new();
    for i in 0..count {
        let text = format!("atom-{}", i);
        let before = table.slots();
        let id = table.emplace(text.as_bytes()).unwrap();
        assert_eq!(id, AtomId(i));
        handles.push(id);
        if i >= before {
            assert_eq!(table.slots(), 2 * before);
        } else {
            assert_eq!(table.slots(), before);
        }
        for (j, earlier) in handles.iter().enumerate() {
            let text = format!("atom-{}", j);
            assert_eq!(table.find(text.as_bytes()), Some(*earlier));
            assert_eq!(table.get(*earlier).unwrap().as_bytes(), text.as_bytes());
        }
    }
    assert_eq!(table.len(), 33);
    assert_eq!(table.slots(), 64);
}

#[test]
fn growth_switches_between_the_halves() {
    let mut table = make_table(5, 4096).unwrap();
    assert_eq!(table.half(), 0);
    for i in 0..8u8 {
        table.emplace(&[i]).unwrap();
    }
    assert_eq!((table.slots(), table.half()), (8, 0));
    table.emplace(&[8]).unwrap();
    assert_eq!((table.slots(), table.half()), (16, 2048));
    for i in 9..17u8 {
        table.emplace(&[i]).unwrap();
    }
    assert_eq!((table.slots(), table.half()), (32, 0));
}

#[test]
fn index_that_cannot_grow_refuses() {
    let mut table = make_table(8, 1).unwrap();
    assert_eq!(table.reserved(), 8 * MAX_ATOM_SIZE);
    assert_eq!(table.slots(), 8);
    for i in 0..8u8 {
        assert_eq!(table.try_emplace(&[i]), Ok(AtomId(i as usize)));
    }
    assert_eq!(table.try_emplace(&[8]), Err(AtomError::IndexFull));
    assert_eq!(table.emplace(&[8]), None);
    assert_eq!(table.len(), 8);
    assert_eq!(table.slots(), 8);
    assert_eq!(table.used(), 8 * (HEADER_SIZE + 1));
    for i in 0..8u8 {
        assert_eq!(table.find(&[i]), Some(AtomId(i as usize)));
        assert_eq!(table.emplace(&[i]), Some(AtomId(i as usize)));
    }
    assert_eq!(table.find(&[8]), None);
}

#[test]
fn arena_that_is_used_up_refuses() {
    let mut table = make_table(1, 1).unwrap();
    assert_eq!(table.reserved(), MAX_ATOM_SIZE);
    let big = [1u8; 200];
    assert_eq!(table.try_emplace(&big), Ok(AtomId(0)));
    assert_eq!(table.used(), 216);
    let next = [2u8; 40];
    assert_eq!(table.try_emplace(&next), Err(AtomError::ArenaExhausted));
    assert_eq!(table.emplace(&next), None);
    assert_eq!(table.used(), 216);
    let last = [3u8; 39];
    assert_eq!(table.try_emplace(&last), Ok(AtomId(1)));
    assert_eq!(table.used(), MAX_ATOM_SIZE);
    assert_eq!(table.try_emplace(b""), Err(AtomError::ArenaExhausted));
    assert_eq!(table.find(&big), Some(AtomId(0)));
    assert_eq!(table.find(&last), Some(AtomId(1)));
}

#[test]
fn arena_commits_in_units_of_4096() {
    let mut table = make_table(100, 4096).unwrap();
    assert_eq!(table.reserved(), 28672);
    assert_eq!(table.committed(), 0);
    table.emplace(b"atom").unwrap();
    assert_eq!(table.used(), 20);
    assert_eq!(table.committed(), COMMIT_SIZE);
    let mut i = 0u32;
    while table.used() <= COMMIT_SIZE {
        assert_eq!(table.committed(), COMMIT_SIZE);
        table.emplace(&i.to_le_bytes()).unwrap();
        i += 1;
    }
    assert_eq!(table.committed(), 2 * COMMIT_SIZE);
}

#[test]
fn table_for_no_atoms_holds_none() {
    let mut table = make_table(0, 4096).unwrap();
    assert_eq!(table.reserved(), 0);
    assert_eq!(table.slots(), 8);
    assert_eq!(table.try_emplace(b""), Err(AtomError::ArenaExhausted));
    assert_eq!(table.len(), 0);
}

#[test]
fn table_too_large_for_the_address_space() {
    assert!(make_table(usize::MAX, 4096).is_none());
    assert!(make_table(usize::MAX / 2, 4096).is_none());
    assert!(AtomTable::reserve(usize::MAX, &machine(4096)).is_none());
    assert!(AtomMemory::reserve(usize::MAX / 271 + 1, &machine(1)).is_none());
    assert!(AtomMemory::reserve(usize::MAX / 271, &machine(1)).is_some());
    assert!(AtomMapping::reserve(usize::MAX / 2 + 2, &machine(1)).is_none());
    assert!(AtomMapping::reserve(usize::MAX / 16, &machine(1)).is_none());
    assert!(AtomMapping::reserve(usize::MAX / 32, &machine(1)).is_some());
}

#[test]
fn index_starts_with_at_most_1024_slots() {
    let table = make_table(5000, 4096).unwrap();
    assert_eq!(table.slots(), 1024);
    let table = make_table(100, 4096).unwrap();
    assert_eq!(table.slots(), 128);
    let index = AtomMapping::new(9, &Page::at(INDEX_AT, 32)).unwrap();
    assert_eq!(index.len(), 0);
    assert!(AtomMapping::new(9, &Page::at(INDEX_AT, 31)).is_none());
    assert!(AtomMapping::new(5000, &Page::at(INDEX_AT, 2047)).is_none());
    assert!(AtomMapping::new(5000, &Page::at(INDEX_AT, 2048)).is_some());
}

#[test]
fn atom_header_holds_length_and_digest() {
    let mut table = make_table(8, 4096).unwrap();
    let id = table.emplace(b"header").unwrap();
    let atom = table.get(id).unwrap();
    assert_eq!(atom.len(), 6);
    assert_eq!(atom.hashed(), fnv1a_hash(b"header"));
    assert_eq!(atom.data(), 0);
    assert!(atom.displacement() < table.slots());
    assert!(table.get(AtomId(1)).is_none());
}

#[test]
fn displacement_counts_probes() {
    let mut table = make_table(8, 4096).unwrap();
    let first = table.emplace(b"costarring").unwrap();
    let second = table.emplace(b"liquid").unwrap();
    assert_eq!(table.get(first).unwrap().displacement(), 0);
    assert_eq!(table.get(second).unwrap().displacement(), 1);
}

#[test]
fn refused_reservation_gives_no_table() {
    let (arena, index) = AtomTable::reserve(5, &machine(4096)).unwrap();
    assert!(AtomTable::new(5, None, Some(Page::at(INDEX_AT, index.len))).is_none());
    assert!(AtomTable::new(5, Some(Page::at(ARENA_AT, arena.len)), None).is_none());
    assert!(AtomTable::new(5, None, None).is_none());
    assert!(AtomTable::new(5, Some(Page::at(ARENA_AT, arena.len)), Some(Page::at(INDEX_AT, 15)))
        .is_none());
    let made =
        AtomTable::new(5, Some(Page::at(ARENA_AT, arena.len)), Some(Page::at(INDEX_AT, index.len)))
            .unwrap();
    assert_eq!(made.len(), 0);
    assert_eq!(made.find(b"atom"), None);
    assert_eq!(made.used(), 0);
    assert_eq!(made.committed(), 0);
    assert_eq!(made.arena().len(), 4096);
    assert_eq!(made.arena().offset(0), ARENA_AT);
    assert_eq!(made.index().len(), 4096);
    assert_eq!(made.index().offset(0), INDEX_AT);
    assert_eq!(made.failure(), None);
}

#[test]
fn reservations_are_planned_exactly() {
    let (arena, index) = AtomTable::reserve(100, &machine(4096)).unwrap();
    assert_eq!(TABLE_FLAGS, PAGE_READ | PAGE_WRITE);
    assert_eq!(arena.len, 28672);
    assert_eq!(arena.bytes, 28672);
    assert_eq!(arena.protection, 3);
    assert_eq!(arena.flags, 0x22);
    assert!(!arena.commit);
    assert_eq!(index.len, 4096);
    assert_eq!(index.bytes, 4096 * std::mem::size_of::<usize>());
    assert_eq!(index.protection, 3);
    assert_eq!(index.flags, 0x22);
    assert!(!index.commit);
    let (arena, index) = AtomTable::reserve(3000, &machine(1)).unwrap();
    assert_eq!(arena.len, 3000 * MAX_ATOM_SIZE);
    assert_eq!(index.len, 2 * 4096);
}

#[test]
fn emplace_keeps_the_cause_of_a_refusal() {
    let mut table = make_table(8, 1).unwrap();
    assert_eq!(table.emplace(&[0u8; 256]), None);
    assert_eq!(table.failure(), Some(AtomError::TextTooLong));
    for i in 0..8u8 {
        assert_eq!(table.emplace(&[i]), Some(AtomId(i as usize)));
        assert_eq!(table.failure(), None);
    }
    assert_eq!(table.emplace(&[8]), None);
    assert_eq!(table.failure(), Some(AtomError::IndexFull));
    assert_eq!(table.emplace(&[3]), Some(AtomId(3)));
    assert_eq!(table.failure(), None);
    let mut small = make_table(1, 1).unwrap();
    assert_eq!(small.emplace(&[1u8; 255]), Some(AtomId(0)));
    assert_eq!(small.emplace(b""), None);
    assert_eq!(small.failure(), Some(AtomError::ArenaExhausted));
    assert_eq!(small.try_emplace(b""), Err(AtomError::ArenaExhausted));
    assert_eq!(small.try_emplace(&[1u8; 255]), Ok(AtomId(0)));
    assert_eq!(small.failure(), None);
}

#[test]
fn new_atom_has_an_empty_extension_slot() {
    let mut table = make_table(8, 4096).unwrap();
    for text in [&b"one"[..], b"two", b"three"] {
        let id = table.emplace(text).unwrap();
        let atom = table.get(id).unwrap();
        assert_eq!(atom.data(), 0);
        assert_eq!(atom.len(), text.len());
        assert_eq!(atom.as_bytes(), text);
        assert_eq!(atom.hashed(), text.hashed());
    }
}

#[test]
fn index_grows_while_its_reservation_has_room() {
    let mut atoms: Vec<Atom> = Vec::new();
    let mut index = AtomMapping::new(5, &Page::at(INDEX_AT, 64)).unwrap();
    assert!(index.has_room());
    assert!(index.grow_table(&mut atoms));
    assert!(index.grow_table(&mut atoms));
    assert!(!index.grow_table(&mut atoms));
    assert_eq!(index.len(), 0);
}

#[test]
fn index_grows_past_sixteen_million_slots() {
    let mut atoms: Vec<Atom> = Vec::new();
    let mut index = AtomMapping::new(5000, &Page::at(INDEX_AT, 1 << 26)).unwrap();
    for _ in 10..25 {
        assert!(index.grow_table(&mut atoms));
    }
    assert!(!index.grow_table(&mut atoms));
    assert!(index.has_room());
    assert_eq!(index.len(), 0);
}
