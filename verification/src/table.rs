//! The transposition table and the pawn table: direct-mapped tables that
//! a hash indexes.
//!
//! A table has a power of two of slots. An entry lives in the slot that
//! the low bits of its key name, and a probe answers only when the key in
//! that slot is the key asked for.

use vstd::prelude::*;
use crate::moves::Move;

verus! {

/// What kind of bound a stored score is.
#[derive(Copy, Clone, PartialEq, Eq, Debug, Structural)]
pub enum Bound {
    /// The exact score of the position.
    Exact,
    /// The position is worth at least this much.
    Lower,
    /// The position is worth at most this much.
    Upper,
}

/// An entry of the transposition table.
#[derive(Copy, Clone, PartialEq, Eq, Debug, Structural)]
pub struct TTEntry {
    pub zobrist: u64,
    pub best_move: Option<Move>,
    pub depth: u8,
    pub score: i32,
    pub bound: Bound,
    pub age: u8,
}

impl TTEntry {
    /// The score is of magnitude at most [`SCORE_INF`].
    pub open spec fn bounded(self) -> bool {
        -SCORE_INF <= self.score <= SCORE_INF
    }
}

/// An entry of the pawn table: the middlegame and endgame parts of the
/// pawn-structure score of the pawns with this hash.
#[derive(Copy, Clone, PartialEq, Eq, Debug, Structural)]
pub struct PawnEntry {
    pub zobrist: u64,
    pub mg: i32,
    pub eg: i32,
}

impl PawnEntry {
    /// Both parts of the score are of magnitude at most
    /// [`PAWN_SCORE_LIMIT`].
    pub open spec fn bounded(self) -> bool {
        -PAWN_SCORE_LIMIT <= self.mg <= PAWN_SCORE_LIMIT && -PAWN_SCORE_LIMIT <= self.eg
            <= PAWN_SCORE_LIMIT
    }
}

/// The transposition table.
pub struct TranspositionTable {
    pub table: Vec<Option<TTEntry>>,
    pub mask: usize,
    pub age: u8,
}

/// The pawn table.
pub struct PawnTable {
    pub table: Vec<Option<PawnEntry>>,
    pub mask: usize,
}

/// The largest magnitude of a score that the search deals in.
pub const SCORE_INF: i32 = 2_000_000_000;

/// The size in bytes that the table allots to one transposition entry.
pub const TT_ENTRY_BYTES: usize = 16;

/// The number of slots of the pawn table.
pub const PAWN_TABLE_SLOTS: usize = 1048576;

/// The largest magnitude of a part of a pawn-structure score.
pub const PAWN_SCORE_LIMIT: i32 = 100_000_000;

/// The slot that a key names in a table with the given mask.
pub open spec fn slot_of(key: u64, mask: usize) -> int {
    (key & (mask as u64)) as int
}

/// The slot that a key names.
pub fn slot_index(key: u64, mask: usize) -> (r: usize)
    requires
        mask < 0x1_0000_0000,
    ensures
        r == slot_of(key, mask),
        r <= mask,
{
    let m = mask as u64;
    assert(key & m <= m) by (bit_vector);
    (key & m) as usize
}

/// Whether `n` is a power of two below 2^32.
pub open spec fn is_table_size(n: int) -> bool {
    exists|e: nat| e < 32 && #[trigger] vstd::arithmetic::power2::pow2(e) == n
}

/// The largest power of two that is at most `n`, and at most 2^31.
pub fn floor_pow2(n: usize) -> (r: usize)
    requires
        n >= 1,
    ensures
        is_table_size(r as int),
        r <= n,
        n < 2 * r || r == 0x8000_0000,
        1 <= r <= 0x8000_0000,
{
    let mut r: usize = 1;
    let mut e: u32 = 0;
    proof {
        vstd::arithmetic::power2::lemma2_to64();
    }
    while e < 31 && r <= n / 2
        invariant
            e <= 31,
            r == vstd::arithmetic::power2::pow2(e as nat),
            1 <= r <= 0x8000_0000,
            r <= n,
            e < 31 ==> r <= 0x4000_0000,
        decreases 31 - e,
    {
        proof {
            vstd::arithmetic::power2::lemma_pow2_unfold((e + 1) as nat);
            vstd::arithmetic::power2::lemma2_to64();
            vstd::arithmetic::power2::lemma_pow2_strictly_increases(e as nat, 31);
            if e + 1 < 31 {
                vstd::arithmetic::power2::lemma_pow2_strictly_increases((e + 1) as nat, 31);
            }
        }
        r = r * 2;
        e = e + 1;
    }
    proof {
        if e == 31 {
            vstd::arithmetic::power2::lemma2_to64();
        }
    }
    r
}

/// A power of two between half of `2^k` and `2^k` is `2^k`.
pub proof fn lemma_exact_pow2(r: int, k: nat)
    requires
        is_table_size(r),
        1 <= k < 32,
        r <= vstd::arithmetic::power2::pow2(k) < 2 * r,
    ensures
        r == vstd::arithmetic::power2::pow2(k),
{
    let e = choose|e: nat| e < 32 && #[trigger] vstd::arithmetic::power2::pow2(e) == r;
    if e < k {
        vstd::arithmetic::power2::lemma_pow2_unfold(k);
        if e < k - 1 {
            vstd::arithmetic::power2::lemma_pow2_strictly_increases(e, (k - 1) as nat);
        }
    } else if e > k {
        vstd::arithmetic::power2::lemma_pow2_strictly_increases(k, e);
    }
}

/// What a probe of `slots` for `key` answers: the entry in the slot of the
/// key, if its key is the key asked for.
pub open spec fn tt_probe(slots: Seq<Option<TTEntry>>, mask: usize, key: u64) -> Option<TTEntry> {
    match slots[slot_of(key, mask)] {
        Some(e) => if e.zobrist == key {
            Some(e)
        } else {
            None
        },
        None => None,
    }
}

/// Whether `entry` takes the place of what its slot holds: always when the
/// slot is empty, else when it comes from a search at least as deep or
/// from a later search.
pub open spec fn tt_replaces(held: Option<TTEntry>, entry: TTEntry) -> bool {
    match held {
        Some(old) => entry.depth >= old.depth || entry.age > old.age,
        None => true,
    }
}

/// The slots after `entry` was stored.
pub open spec fn tt_store(slots: Seq<Option<TTEntry>>, mask: usize, entry: TTEntry) -> Seq<
    Option<TTEntry>,
> {
    let i = slot_of(entry.zobrist, mask);
    if tt_replaces(slots[i], entry) {
        slots.update(i, Some(entry))
    } else {
        slots
    }
}

/// The slots after the entries of `entries` were stored one after the
/// other.
pub open spec fn tt_store_all(slots: Seq<Option<TTEntry>>, mask: usize, entries: Seq<TTEntry>) -> Seq<
    Option<TTEntry>,
>
    decreases entries.len(),
{
    if entries.len() == 0 {
        slots
    } else {
        tt_store(tt_store_all(slots, mask, entries.drop_last()), mask, entries.last())
    }
}

/// A table of empty slots.
pub open spec fn empty_slots<T>(n: int) -> Seq<Option<T>> {
    Seq::new(n as nat, |i: int| None::<T>)
}

/// A key's slot lies inside a table of `mask + 1` slots.
pub proof fn lemma_slot_range(key: u64, mask: usize)
    requires
        mask < 0x1_0000_0000,
    ensures
        0 <= slot_of(key, mask) <= mask,
{
    let m = mask as u64;
    assert(key & m <= m) by (bit_vector);
}

/// A store changes no answer but that for the key it stores: a probe for
/// another key answers what it answered before, or nothing.
pub proof fn lemma_store_other_key(
    slots: Seq<Option<TTEntry>>,
    mask: usize,
    entry: TTEntry,
    key: u64,
)
    requires
        mask < 0x1_0000_0000,
        slots.len() == mask + 1,
        key != entry.zobrist,
    ensures
        tt_probe(tt_store(slots, mask, entry), mask, key) is Some ==> tt_probe(
            tt_store(slots, mask, entry),
            mask,
            key,
        ) == tt_probe(slots, mask, key),
{
    lemma_slot_range(key, mask);
    lemma_slot_range(entry.zobrist, mask);
}

/// A stored entry that takes its slot is what a probe for its key answers;
/// one that does not take it leaves the answer as it was.
pub proof fn lemma_store_then_probe(slots: Seq<Option<TTEntry>>, mask: usize, entry: TTEntry)
    requires
        mask < 0x1_0000_0000,
        slots.len() == mask + 1,
    ensures
        tt_probe(tt_store(slots, mask, entry), mask, entry.zobrist) == (if tt_replaces(
            slots[slot_of(entry.zobrist, mask)],
            entry,
        ) {
            Some(entry)
        } else {
            tt_probe(slots, mask, entry.zobrist)
        }),
{
    lemma_slot_range(entry.zobrist, mask);
}

/// Storing keeps the number of slots.
pub proof fn lemma_store_all_len(slots: Seq<Option<TTEntry>>, mask: usize, entries: Seq<TTEntry>)
    requires
        mask < 0x1_0000_0000,
        slots.len() == mask + 1,
    ensures
        tt_store_all(slots, mask, entries).len() == slots.len(),
    decreases entries.len(),
{
    if entries.len() > 0 {
        lemma_store_all_len(slots, mask, entries.drop_last());
        lemma_slot_range(entries.last().zobrist, mask);
    }
}

/// A probe with a key that no store was given answers nothing, however
/// many entries were stored in a table that started empty.
pub proof fn lemma_probe_unknown_key(mask: usize, entries: Seq<TTEntry>, key: u64)
    requires
        mask < 0x1_0000_0000,
        forall|i: int| 0 <= i < entries.len() ==> (#[trigger] entries[i]).zobrist != key,
    ensures
        tt_probe(tt_store_all(empty_slots(mask + 1), mask, entries), mask, key) is None,
    decreases entries.len(),
{
    lemma_slot_range(key, mask);
    if entries.len() > 0 {
        let before = entries.drop_last();
        assert forall|i: int| 0 <= i < before.len() implies (#[trigger] before[i]).zobrist
            != key by {
            assert(before[i] == entries[i]);
        }
        lemma_probe_unknown_key(mask, before, key);
        lemma_store_all_len(empty_slots(mask + 1), mask, before);
        lemma_store_other_key(
            tt_store_all(empty_slots(mask + 1), mask, before),
            mask,
            entries.last(),
            key,
        );
    }
}

impl TranspositionTable {
    /// The table has a power of two of slots and `mask` is that number
    /// less one.
    pub open spec fn shaped(&self) -> bool {
        &&& self.mask < 0x1_0000_0000
        &&& self.table@.len() == self.mask + 1
        &&& is_table_size(self.mask + 1)
    }

    /// The table is shaped and every score it holds is of magnitude at
    /// most [`SCORE_INF`]. The search asks this of its table, because it
    /// negates the scores it reads.
    pub open spec fn wf(&self) -> bool {
        &&& self.shaped()
        &&& forall|i: int|
            0 <= i < self.table@.len() ==> (#[trigger] self.table@[i] matches Some(e)
                ==> e.bounded())
    }

    /// What a probe for `key` answers.
    pub open spec fn spec_probe(&self, key: u64) -> Option<TTEntry> {
        tt_probe(self.table@, self.mask, key)
    }

    /// A table of 256 MiB, all slots empty.
    pub fn new() -> (r: Self)
        ensures
            r.wf(),
            r.age == 0,
            r.mask + 1 == 0x100_0000,
            r.table@ == empty_slots::<TTEntry>(r.mask + 1),
    {
        let r = Self::with_size_mib(256);
        proof {
            vstd::arithmetic::power2::lemma2_to64();
            lemma_exact_pow2(r.mask + 1, 24);
        }
        r
    }

    /// A table of at most `mib` MiB, all slots empty: as many slots of 16
    /// bytes as fit, rounded down to a power of two.
    pub fn with_size_mib(mib: usize) -> (r: Self)
        requires
            1 <= mib <= 1024,
        ensures
            r.wf(),
            r.age == 0,
            r.mask + 1 <= mib * 65536 < 2 * (r.mask + 1),
            r.table@ == empty_slots::<TTEntry>(r.mask + 1),
    {
        let slots: usize = mib * 1048576 / TT_ENTRY_BYTES;
        let size = floor_pow2(slots);
        let mut table: Vec<Option<TTEntry>> = Vec::with_capacity(size);
        let mut i: usize = 0;
        while i < size
            invariant
                i <= size,
                table@ == empty_slots::<TTEntry>(i as int),
            decreases size - i,
        {
            table.push(None);
            i += 1;
            assert(table@ =~= empty_slots::<TTEntry>(i as int));
        }
        TranspositionTable { table, mask: size - 1, age: 0 }
    }

    /// Stores an entry in the slot of its key if the slot is empty, or the
    /// entry comes from a search at least as deep as the one held, or from
    /// a later search.
    pub fn store(&mut self, entry: TTEntry)
        requires
            old(self).shaped(),
        ensures
            final(self).shaped(),
            old(self).wf() && entry.bounded() ==> final(self).wf(),
            final(self).mask == old(self).mask,
            final(self).age == old(self).age,
            final(self).table@ == tt_store(old(self).table@, old(self).mask, entry),
            final(self).spec_probe(entry.zobrist) == (if tt_replaces(
                old(self).table@[slot_of(entry.zobrist, old(self).mask)],
                entry,
            ) {
                Some(entry)
            } else {
                old(self).spec_probe(entry.zobrist)
            }),
            forall|key: u64|
                key != entry.zobrist && (#[trigger] final(self).spec_probe(key)) is Some ==> final(self).spec_probe(key) == old(self).spec_probe(key),
    {
        let idx = slot_index(entry.zobrist, self.mask);
        let replace = match &self.table[idx] {
            Some(held) => entry.depth >= held.depth || entry.age > held.age,
            None => true,
        };
        if replace {
            self.table[idx] = Some(entry);
        }
        proof {
            assert(self.table@ =~= tt_store(old(self).table@, old(self).mask, entry));
            lemma_store_then_probe(old(self).table@, old(self).mask, entry);
            assert forall|key: u64|
                key != entry.zobrist && (#[trigger] self.spec_probe(key)) is Some implies self.spec_probe(
                key,
            ) == old(self).spec_probe(key) by {
                lemma_store_other_key(old(self).table@, old(self).mask, entry, key);
            }
        }
    }

    /// The entry stored under `zobrist`, if the slot of that key holds an
    /// entry with that key.
    pub fn probe(&self, zobrist: u64) -> (r: Option<&TTEntry>)
        requires
            self.shaped(),
        ensures
            match r {
                Some(e) => self.spec_probe(zobrist) == Some(*e) && (self.wf() ==> e.bounded()),
                None => self.spec_probe(zobrist) is None,
            },
    {
        let idx = slot_index(zobrist, self.mask);
        match &self.table[idx] {
            Some(e) => if e.zobrist == zobrist {
                Some(e)
            } else {
                None
            },
            None => None,
        }
    }

    /// Begins a new search: entries stored from now on are newer than
    /// those stored before. The age wraps around after 255.
    pub fn next_age(&mut self)
        ensures
            final(self).table == old(self).table,
            old(self).wf() ==> final(self).wf(),
            final(self).mask == old(self).mask,
            final(self).age == (if old(self).age == 255 {
                0u8
            } else {
                (old(self).age + 1) as u8
            }),
    {
        self.age = self.age.wrapping_add(1);
    }
}

/// What a probe of the pawn table answers.
pub open spec fn pawn_probe(slots: Seq<Option<PawnEntry>>, mask: usize, key: u64) -> Option<
    PawnEntry,
> {
    match slots[slot_of(key, mask)] {
        Some(e) => if e.zobrist == key {
            Some(e)
        } else {
            None
        },
        None => None,
    }
}

impl PawnTable {
    /// The table has a power of two of slots and `mask` is that number
    /// less one.
    pub open spec fn shaped(&self) -> bool {
        &&& self.mask < 0x1_0000_0000
        &&& self.table@.len() == self.mask + 1
    }

    /// The table is shaped and every score it holds is of magnitude at
    /// most [`PAWN_SCORE_LIMIT`]. The evaluation asks this of its table,
    /// because it adds the scores it reads to the other terms.
    pub open spec fn wf(&self) -> bool {
        &&& self.shaped()
        &&& forall|i: int|
            0 <= i < self.table@.len() ==> (#[trigger] self.table@[i] matches Some(e)
                ==> e.bounded())
    }

    /// What a probe for `key` answers.
    pub open spec fn spec_probe(&self, key: u64) -> Option<PawnEntry> {
        pawn_probe(self.table@, self.mask, key)
    }

    /// A table of 2^20 slots, all empty.
    pub fn new() -> (r: Self)
        ensures
            r.wf(),
            r.mask + 1 == PAWN_TABLE_SLOTS,
            r.table@ == empty_slots::<PawnEntry>(PAWN_TABLE_SLOTS as int),
    {
        let r = Self::with_slots(PAWN_TABLE_SLOTS);
        proof {
            vstd::arithmetic::power2::lemma2_to64();
            lemma_exact_pow2(r.mask + 1, 20);
        }
        r
    }

    /// A table of the largest power of two of slots that is at most
    /// `slots`, all empty.
    pub fn with_slots(slots: usize) -> (r: Self)
        requires
            slots >= 1,
        ensures
            r.wf(),
            is_table_size(r.mask + 1),
            r.mask + 1 <= slots,
            slots < 2 * (r.mask + 1) || r.mask + 1 == 0x8000_0000,
            r.table@ == empty_slots::<PawnEntry>(r.mask + 1),
    {
        let size = floor_pow2(slots);
        let mut table: Vec<Option<PawnEntry>> = Vec::with_capacity(size);
        let mut i: usize = 0;
        while i < size
            invariant
                i <= size,
                table@ == empty_slots::<PawnEntry>(i as int),
            decreases size - i,
        {
            table.push(None);
            i += 1;
            assert(table@ =~= empty_slots::<PawnEntry>(i as int));
        }
        PawnTable { table, mask: size - 1 }
    }

    /// Stores an entry in the slot of its key, whatever the slot held.
    pub fn store(&mut self, entry: PawnEntry)
        requires
            old(self).shaped(),
        ensures
            final(self).shaped(),
            old(self).wf() && entry.bounded() ==> final(self).wf(),
            final(self).mask == old(self).mask,
            final(self).table@ == old(self).table@.update(
                slot_of(entry.zobrist, old(self).mask),
                Some(entry),
            ),
            final(self).spec_probe(entry.zobrist) == Some(entry),
    {
        let idx = slot_index(entry.zobrist, self.mask);
        self.table[idx] = Some(entry);
    }

    /// The entry stored under `zobrist`, if the slot of that key holds an
    /// entry with that key.
    pub fn probe(&self, zobrist: u64) -> (r: Option<&PawnEntry>)
        requires
            self.shaped(),
        ensures
            match r {
                Some(e) => self.spec_probe(zobrist) == Some(*e) && (self.wf() ==> e.bounded()),
                None => self.spec_probe(zobrist) is None,
            },
    {
        let idx = slot_index(zobrist, self.mask);
        match &self.table[idx] {
            Some(e) => if e.zobrist == zobrist {
                Some(e)
            } else {
                None
            },
            None => None,
        }
    }
}

} // verus!
