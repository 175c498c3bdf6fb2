use bytechess::moves::Move;
use bytechess::table::{Bound, PawnEntry, PawnTable, TTEntry, TranspositionTable};

fn entry(key: u64, depth: u8, age: u8, score: i32) -> TTEntry {
    TTEntry {
        zobrist: key,
        best_move: Some(Move::from_parts(12, 28, 1)),
        depth,
        score,
        bound: Bound::Exact,
        age,
    }
}

#[test]
fn table_size_is_a_power_of_two_of_sixteen_byte_slots() {
    let t = TranspositionTable::with_size_mib(1);
    assert_eq!(t.table.len(), 65536);
    assert_eq!(t.mask, 65535);
    let t3 = TranspositionTable::with_size_mib(3);
    assert_eq!(t3.table.len(), 131072);
    assert_eq!(t3.age, 0);
}

#[test]
fn probe_of_an_empty_table_finds_nothing() {
    let t = TranspositionTable::with_size_mib(1);
    assert!(t.probe(0).is_none());
    assert!(t.probe(12345).is_none());
    assert!(t.probe(u64::MAX).is_none());
}

#[test]
fn store_then_probe_returns_the_entry() {
    let mut t = TranspositionTable::with_size_mib(1);
    let e = entry(0xdead_beef_0000_0042, 5, 0, 17);
    t.store(e);
    assert_eq!(t.probe(e.zobrist), Some(&e));
}

#[test]
fn probe_with_a_key_never_stored_finds_nothing() {
    let mut t = TranspositionTable::with_size_mib(1);
    let e = entry(0x42, 5, 0, 17);
    t.store(e);
    // same slot, other key
    assert!(t.probe(0x42 + 65536).is_none());
    // other slot
    assert!(t.probe(0x43).is_none());
}

#[test]
fn deeper_or_equal_entry_replaces() {
    let mut t = TranspositionTable::with_size_mib(1);
    let a = entry(0x42, 5, 0, 1);
    let b = entry(0x42 + 65536, 5, 0, 2);
    let c = entry(0x42 + 2 * 65536, 7, 0, 3);
    t.store(a);
    t.store(b);
    assert_eq!(t.probe(b.zobrist), Some(&b));
    assert!(t.probe(a.zobrist).is_none());
    t.store(c);
    assert_eq!(t.probe(c.zobrist), Some(&c));
}

#[test]
fn shallower_entry_of_the_same_age_does_not_replace() {
    let mut t = TranspositionTable::with_size_mib(1);
    let deep = entry(0x42, 9, 3, 1);
    let shallow = entry(0x42 + 65536, 2, 3, 2);
    t.store(deep);
    t.store(shallow);
    assert_eq!(t.probe(deep.zobrist), Some(&deep));
    assert!(t.probe(shallow.zobrist).is_none());
}

#[test]
fn newer_entry_replaces_whatever_its_depth() {
    let mut t = TranspositionTable::with_size_mib(1);
    let deep = entry(0x42, 9, 3, 1);
    let newer = entry(0x42 + 65536, 2, 4, 2);
    t.store(deep);
    t.store(newer);
    assert_eq!(t.probe(newer.zobrist), Some(&newer));
    assert!(t.probe(deep.zobrist).is_none());
}

#[test]
fn next_age_counts_up_and_wraps() {
    let mut t = TranspositionTable::with_size_mib(1);
    t.next_age();
    assert_eq!(t.age, 1);
    t.age = 255;
    t.next_age();
    assert_eq!(t.age, 0);
}

#[test]
fn pawn_table_stores_and_probes() {
    let mut t = PawnTable::with_slots(1024);
    assert_eq!(t.table.len(), 1024);
    assert!(t.probe(77).is_none());
    let e = PawnEntry { zobrist: 77, mg: 12, eg: -5 };
    t.store(e);
    assert_eq!(t.probe(77), Some(&e));
    assert!(t.probe(77 + 1024).is_none());
    let f = PawnEntry { zobrist: 77 + 1024, mg: 1, eg: 2 };
    t.store(f);
    assert_eq!(t.probe(77 + 1024), Some(&f));
    assert!(t.probe(77).is_none());
}

#[test]
fn pawn_table_has_two_to_the_twenty_slots() {
    let t = PawnTable::new();
    assert_eq!(t.table.len(), 1 << 20);
    let u = PawnTable::with_slots(1000);
    assert_eq!(u.table.len(), 512);
}

#[test]
fn any_entry_can_be_stored() {
    let mut tt = TranspositionTable::with_size_mib(1);
    for score in [i32::MAX, i32::MIN, 0] {
        let e = TTEntry {
            zobrist: 77,
            best_move: None,
            depth: 3,
            score,
            bound: Bound::Exact,
            age: 0,
        };
        tt.store(e);
        assert_eq!(tt.probe(77), Some(&e));
    }
    let mut pawns = PawnTable::with_slots(16);
    let e = PawnEntry { zobrist: 5, mg: i32::MAX, eg: i32::MIN };
    pawns.store(e);
    assert_eq!(pawns.probe(5), Some(&e));
}
