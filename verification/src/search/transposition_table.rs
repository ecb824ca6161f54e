//! The transposition table: a cache of search results indexed by Zobrist hash,
//! with a depth- and age-preferring replacement rule.
use crate::score::{
    INFINITY, Score, in_search_range, ply_dependent, ply_dependent_spec, ply_independent,
    ply_independent_spec,
};
use crate::types::Move;
use vstd::prelude::*;

verus! {

/// The kind of bound a stored score is.
#[derive(Clone, Copy, PartialEq, Eq, Structural, Debug)]
pub enum Bound {
    /// The score is exact.
    Exact,
    /// The score is an upper bound (it failed low: score <= alpha).
    Alpha,
    /// The score is a lower bound (it failed high: score >= beta).
    Beta,
}

impl Bound {
    /// The two-bit code of the bound: 1, 2 or 3.
    pub open spec fn code_spec(self) -> u8 {
        match self {
            Bound::Exact => 1,
            Bound::Alpha => 2,
            Bound::Beta => 3,
        }
    }

    /// The bound a search result `score` is with respect to the window
    /// (`alpha`, `beta`): a lower bound when it reaches `beta`, an upper bound when
    /// it does not exceed `alpha`, exact otherwise.
    pub fn with_score(score: Score, alpha: Score, beta: Score) -> (r: Bound)
        ensures
            r == if score >= beta {
                Bound::Beta
            } else if score <= alpha {
                Bound::Alpha
            } else {
                Bound::Exact
            },
    {
        if score >= beta {
            Bound::Beta
        } else if score <= alpha {
            Bound::Alpha
        } else {
            Bound::Exact
        }
    }
}

/// The bound and age of a stored entry, packed in a byte: the low two bits hold
/// the bound code (never 0), the upper six bits the age.
#[derive(Clone, Copy, Debug)]
pub struct Flags {
    data: u8,
}

impl Flags {
    /// The packed byte.
    pub closed spec fn data_spec(&self) -> u8 {
        self.data
    }

    /// The low two bits hold a bound code.
    pub open spec fn wf(&self) -> bool {
        self.data_spec() & 3 != 0
    }

    /// The flags of a bound and an age.
    pub closed spec fn of(bound: Bound, age: u8) -> Flags {
        Flags { data: bound.code_spec() | (age << 2) }
    }

    /// The flags of a bound and an age below 64 hold them.
    pub proof fn lemma_of(bound: Bound, age: u8)
        requires
            age < 64,
        ensures
            Flags::of(bound, age).wf(),
            Flags::of(bound, age).bound_spec() == bound,
            Flags::of(bound, age).age_spec() == age,
    {
        let code = bound.code_spec();
        assert(1 <= code <= 3 && age < 64 ==> (code | (age << 2)) & 3 == code && (code | (age
            << 2)) >> 2 == age && (code | (age << 2)) & 3 != 0) by (bit_vector);
    }

    /// The flags of a bound and an age (below 64).
    pub fn new(bound: Bound, age: u8) -> (r: Flags)
        requires
            age < 64,
        ensures
            r == Flags::of(bound, age),
            r.wf(),
            r.bound_spec() == bound,
            r.age_spec() == age,
    {
        proof {
            Flags::lemma_of(bound, age);
        }
        let code: u8 = match bound {
            Bound::Exact => 1,
            Bound::Alpha => 2,
            Bound::Beta => 3,
        };
        Flags { data: code | (age << 2) }
    }

    /// The bound the flags hold.
    pub open spec fn bound_spec(&self) -> Bound {
        let c = self.data_spec() & 3;
        if c == 1 {
            Bound::Exact
        } else if c == 2 {
            Bound::Alpha
        } else {
            Bound::Beta
        }
    }

    /// The age the flags hold.
    pub open spec fn age_spec(&self) -> u8 {
        self.data_spec() >> 2
    }

    /// The bound the flags hold.
    pub fn bound(&self) -> (r: Bound)
        requires
            self.wf(),
        ensures
            r == self.bound_spec(),
    {
        let c = self.data & 3;
        if c == 1 {
            Bound::Exact
        } else if c == 2 {
            Bound::Alpha
        } else {
            Bound::Beta
        }
    }

    /// The age the flags hold (below 64).
    pub fn age(&self) -> (r: u8)
        ensures
            r == self.age_spec(),
            r < 64,
    {
        let d = self.data;
        assert(d >> 2u8 < 64) by (bit_vector);
        self.data >> 2
    }
}

/// Masking with 63 takes the remainder by 64.
proof fn lemma_mod64(v: u8)
    by (bit_vector)
    ensures
        v & 63u8 == v % 64,
{
}

/// Masking never exceeds the mask.
proof fn lemma_mask_le(k: usize, m: usize)
    by (bit_vector)
    ensures
        k & m <= m,
{
}

/// A Zobrist hash key.
pub type Key = u64;

/// A search result as stored in or read from the table.
#[derive(Clone, Copy, Debug)]
pub struct Entry {
    /// The score (relative to the root when read, to the node when stored).
    pub score: Score,
    /// The best move found, if any.
    pub best_move: Option<Move>,
    /// The kind of bound the score is.
    pub bound: Bound,
    /// The depth searched: negative in quiescence search.
    pub depth: i8,
}

impl Entry {
    /// Whether the entry settles a node searched to `depth` with the window
    /// (`alpha`, `beta`): it was searched at least as deep, and its score is exact
    /// or a bound on the side of the window it fails.
    pub fn is_cutoff(&self, alpha: Score, beta: Score, depth: i8) -> (r: bool)
        ensures
            r == (self.depth >= depth && match self.bound {
                Bound::Exact => true,
                Bound::Alpha => self.score <= alpha,
                Bound::Beta => self.score >= beta,
            }),
    {
        if self.depth < depth {
            return false;
        }
        match self.bound {
            Bound::Exact => true,
            Bound::Alpha => self.score <= alpha,
            Bound::Beta => self.score >= beta,
        }
    }
}

/// A stored entry.
#[derive(Clone, Copy, Debug)]
pub struct Storage {
    /// The full Zobrist key of the position.
    pub key: Key,
    /// The score, made independent of the ply it was found at.
    pub score: Score,
    /// The best move found, if any.
    pub best_move: Option<Move>,
    /// The bound kind and the table age when stored.
    pub flags: Flags,
    /// The depth searched.
    pub depth: i8,
}

/// The size of a stored entry in bytes.
pub const ENTRY_SIZE: usize = 16;

/// Ages are counted modulo 64.
pub const AGE_MASK: u8 = 63;

/// The number of ages in a cycle.
pub const AGE_CYCLE: u8 = 64;

/// The slot of key `key` in a table whose size mask is `mask`.
pub open spec fn slot(key: u64, mask: usize) -> int {
    ((key as usize) & mask) as int
}

/// The largest power of two not above `count` (for `count >= 1`).
pub open spec fn largest_pow2(count: int, p: int) -> int
    decreases count - p,
{
    if p <= 0 || p * 2 > count {
        p
    } else {
        largest_pow2(count, p * 2)
    }
}

/// A cache of search results indexed by Zobrist key, with a power-of-two number of
/// slots.
pub struct TranspositionTable {
    /// One slot per index.
    table: Vec<Option<Storage>>,
    /// The number of slots minus one (0 for an empty table).
    size_mask: usize,
    /// The age of the table, advanced at each search.
    age: u8,
}

impl TranspositionTable {
    /// The slots.
    pub closed spec fn slots(&self) -> Seq<Option<Storage>> {
        self.table@
    }

    /// The size mask.
    pub closed spec fn mask(&self) -> usize {
        self.size_mask
    }

    /// The current age.
    pub closed spec fn age_spec(&self) -> u8 {
        self.age
    }

    /// A consistent table: as many slots as the mask plus one (or none), an age
    /// below 64, and stored entries with valid flags, scores near the search
    /// range, and depths from -64 on.
    pub open spec fn wf(&self) -> bool {
        &&& self.slots().len() == 0 ==> self.mask() == 0
        &&& self.slots().len() > 0 ==> self.slots().len() == self.mask() + 1
        &&& self.age_spec() < 64
        &&& forall|i: int|
            0 <= i < self.slots().len() && #[trigger] self.slots()[i] is Some ==> {
                let s = self.slots()[i]->0;
                &&& s.flags.wf()
                &&& -INFINITY - 255 <= s.score <= INFINITY + 255
                &&& s.depth >= -64
            }
    }

    /// Creates a table of at most `mb_size` megabytes (see
    /// [`TranspositionTable::resize`]).
    pub fn new(mb_size: usize) -> (r: TranspositionTable)
        requires
            mb_size as int * 1048576 <= usize::MAX as int,
        ensures
            r.wf(),
            r.age_spec() == 0,
            r.slots().len() == (if mb_size * 1024 * 1024 / 16 == 0 {
                0
            } else {
                largest_pow2(mb_size * 1024 * 1024 / 16, 1)
            }),
            forall|i: int| 0 <= i < r.slots().len() ==> #[trigger] r.slots()[i] is None,
    {
        let mut tt = TranspositionTable { table: Vec::new(), size_mask: 0, age: 0 };
        tt.resize(mb_size);
        tt
    }

    /// Advances the age by one, modulo 64.
    pub fn increment_age(&mut self)
        requires
            old(self).wf(),
        ensures
            final(self).wf(),
            final(self).age_spec() == (old(self).age_spec() + 1) % 64,
            final(self).slots() == old(self).slots(),
            final(self).mask() == old(self).mask(),
    {
        let next: u8 = self.age + 1;
        self.age = next & AGE_MASK;
        proof {
            lemma_mod64(next);
        }
    }

    /// The number of slots minus one (0 for an empty table).
    pub fn size_mask(&self) -> (r: usize)
        ensures
            r == self.mask(),
    {
        self.size_mask
    }

    /// The current age.
    pub fn age(&self) -> (r: u8)
        ensures
            r == self.age_spec(),
    {
        self.age
    }

    /// How many ages ago `age` was, modulo 64.
    pub fn relative_age(&self, age: u8) -> (r: u8)
        requires
            self.wf(),
            age < 192,
        ensures
            r == (64 + age - self.age_spec()) % 64,
    {
        let v = AGE_CYCLE + age - self.age;
        proof {
            lemma_mod64(v);
        }
        v & AGE_MASK
    }

    /// Reallocates the table with the largest power-of-two number of 16-byte slots
    /// fitting in `mb_size` megabytes, all empty, and resets the age. With room for
    /// no slot, the table becomes empty (and the age is kept).
    pub fn resize(&mut self, mb_size: usize)
        requires
            mb_size as int * 1048576 <= usize::MAX as int,
        ensures
            final(self).wf(),
            final(self).slots().len() == (if mb_size * 1024 * 1024 / 16 == 0 {
                0
            } else {
                largest_pow2(mb_size * 1024 * 1024 / 16, 1)
            }),
            forall|i: int| 0 <= i < final(self).slots().len() ==> #[trigger] final(self).slots()[i] is None,
            mb_size * 1024 * 1024 / 16 == 0 ==> final(self).age_spec() == old(self).age_spec() % 64,
            mb_size * 1024 * 1024 / 16 != 0 ==> final(self).age_spec() == 0,
    {
        let target_bytes = mb_size * 1024 * 1024;
        let count = target_bytes / ENTRY_SIZE;
        if count == 0 {
            self.table = Vec::new();
            self.size_mask = 0;
            self.age = self.age & AGE_MASK;
            proof {
                lemma_mod64(old(self).age);
            }
            return;
        }
        let mut power: usize = 1;
        while power <= count / 2
            invariant
                1 <= power <= count,
                largest_pow2(count as int, 1) == largest_pow2(count as int, power as int),
            decreases count - power,
        {
            power = power * 2;
        }
        let mut table: Vec<Option<Storage>> = Vec::new();
        let mut i: usize = 0;
        while i < power
            invariant
                i <= power,
                table@.len() == i,
                forall|j: int| 0 <= j < i ==> #[trigger] table@[j] is None,
            decreases power - i,
        {
            table.push(None);
            i = i + 1;
        }
        self.table = table;
        self.size_mask = power - 1;
        self.age = 0;
    }

    /// Empties every slot and resets the age.
    pub fn clear(&mut self)
        requires
            old(self).wf(),
        ensures
            final(self).wf(),
            final(self).age_spec() == 0,
            final(self).mask() == old(self).mask(),
            final(self).slots().len() == old(self).slots().len(),
            forall|i: int| 0 <= i < final(self).slots().len() ==> #[trigger] final(self).slots()[i] is None,
    {
        self.age = 0;
        let n = self.table.len();
        let mut i: usize = 0;
        while i < n
            invariant
                i <= n,
                n == self.table@.len(),
                n == old(self).slots().len(),
                self.size_mask == old(self).mask(),
                self.age == 0,
                old(self).wf(),
                forall|j: int| 0 <= j < i ==> #[trigger] self.table@[j] is None,
                forall|j: int|
                    i <= j < n ==> #[trigger] self.table@[j] == old(self).slots()[j],
            decreases n - i,
        {
            self.table[i] = None;
            i = i + 1;
        }
    }

    /// What a probe of `key` at search ply `ply` finds: the entry of the key's slot
    /// when it holds that key, with its score made relative to `ply`.
    pub open spec fn probe_spec(&self, key: Key, ply: u8) -> Option<Entry> {
        match self.slots()[slot(key, self.mask())] {
            None => None,
            Some(s) => if s.key == key {
                Some(
                    Entry {
                        score: ply_dependent_spec(s.score as int, ply as int) as Score,
                        best_move: s.best_move,
                        bound: s.flags.bound_spec(),
                        depth: s.depth,
                    },
                )
            } else {
                None
            },
        }
    }

    /// The slots after storing `value`, found at ply `ply`, for `key`: the key's
    /// slot holds it, with its score made independent of the ply, when the table
    /// has slots and the entry replaces the slot's content; otherwise nothing
    /// changes.
    pub open spec fn stored_slots(&self, key: Key, ply: u8, value: Entry) -> Seq<Option<Storage>> {
        if self.slots().len() > 0 && self.replaces(key, value.depth) {
            self.slots().update(
                slot(key, self.mask()),
                Some(
                    Storage {
                        key,
                        score: ply_independent_spec(value.score as int, ply as int) as Score,
                        best_move: value.best_move,
                        flags: Flags::of(value.bound, self.age_spec()),
                        depth: value.depth,
                    },
                ),
            )
        } else {
            self.slots()
        }
    }

    /// The entry stored for `key`, read at search ply `ply` (mate scores made
    /// relative to that ply), or `None` when its slot is empty or holds another key.
    /// The table must have slots.
    pub fn probe(&self, key: Key, ply: u8) -> (r: Option<Entry>)
        requires
            self.wf(),
            self.slots().len() > 0,
        ensures
            r == self.probe_spec(key, ply),
    {
        let index = (key as usize) & self.size_mask;
        proof {
            lemma_mask_le(key as usize, self.size_mask);
        }
        match self.table[index] {
            None => None,
            Some(entry) => {
                if entry.key != key {
                    return None;
                }
                Some(
                    Entry {
                        score: ply_dependent(entry.score, ply),
                        best_move: entry.best_move,
                        bound: entry.flags.bound(),
                        depth: entry.depth,
                    },
                )
            },
        }
    }

    /// Whether storing an entry searched to `depth` replaces what the slot of `key`
    /// holds: an empty slot always, otherwise an entry no deeper than `depth` plus
    /// how many ages ago it was stored.
    pub open spec fn replaces(&self, key: Key, depth: i8) -> bool {
        match self.slots()[slot(key, self.mask())] {
            None => true,
            Some(s) => depth >= s.depth - ((64 + s.flags.age_spec() - self.age_spec()) % 64),
        }
    }

    /// Stores `value`, found at search ply `ply`, for `key` (mate scores made
    /// independent of the ply), when it replaces the slot's entry (see
    /// [`TranspositionTable::replaces`]); an empty table stores nothing.
    pub fn store(&mut self, key: Key, ply: u8, value: Entry)
        requires
            old(self).wf(),
            in_search_range(value.score as int),
            value.depth >= -64,
        ensures
            final(self).wf(),
            final(self).mask() == old(self).mask(),
            final(self).age_spec() == old(self).age_spec(),
            final(self).slots() == old(self).stored_slots(key, ply, value),
            final(self).slots().len() == old(self).slots().len(),
    {
        if self.table.len() == 0 {
            return;
        }
        let index = (key as usize) & self.size_mask;
        proof {
            lemma_mask_le(key as usize, self.size_mask);
        }
        match self.table[index] {
            Some(existing) => {
                let rel = self.relative_age(existing.flags.age());
                let is_better = value.depth >= existing.depth - rel as i8;
                if !is_better {
                    return;
                }
            },
            None => {},
        }
        let stored = Storage {
            key,
            score: ply_independent(value.score, ply),
            best_move: value.best_move,
            flags: Flags::new(value.bound, self.age),
            depth: value.depth,
        };
        self.table[index] = Some(stored);
    }

    /// The share of the first (up to) 1000 slots that hold an entry, in
    /// thousandths (0 for an empty table).
    pub fn hashfull(&self) -> (r: u32)
        ensures
            r <= 1000,
            self.slots().len() == 0 ==> r == 0,
            self.slots().len() > 0 ==> r == filled(self.slots(), if self.slots().len() < 1000 {
                self.slots().len() as int
            } else {
                1000
            }) * 1000 / (if self.slots().len() < 1000 {
                self.slots().len() as int
            } else {
                1000
            }),
    {
        if self.table.len() == 0 {
            return 0;
        }
        let sample_size: usize = if self.table.len() < 1000 {
            self.table.len()
        } else {
            1000
        };
        let mut count: usize = 0;
        let mut i: usize = 0;
        while i < sample_size
            invariant
                i <= sample_size,
                sample_size <= self.table@.len(),
                sample_size <= 1000,
                count == filled(self.table@, i as int),
                count <= i,
            decreases sample_size - i,
        {
            if self.table[i].is_some() {
                count = count + 1;
            }
            i = i + 1;
        }
        assert(count as int * 1000 / sample_size as int <= 1000) by (nonlinear_arith)
            requires
                count <= sample_size,
                sample_size > 0,
        ;
        (count * 1000 / sample_size) as u32
    }
}

/// The number of filled slots among the first `n`.
pub open spec fn filled(slots: Seq<Option<Storage>>, n: int) -> int
    decreases n,
{
    if n <= 0 {
        0
    } else {
        filled(slots, n - 1) + if slots[n - 1] is Some {
            1int
        } else {
            0int
        }
    }
}


/// Probing a key at the ply it was stored at, right after a store that replaced
/// its slot's content, gives back the entry stored: score, best move, bound and
/// depth.
pub proof fn lemma_probe_after_store(
    t0: &TranspositionTable,
    t1: &TranspositionTable,
    key: Key,
    ply: u8,
    value: Entry,
)
    requires
        t0.wf(),
        in_search_range(value.score as int),
        t0.slots().len() > 0,
        t0.replaces(key, value.depth),
        t1.mask() == t0.mask(),
        t1.slots() == t0.stored_slots(key, ply, value),
    ensures
        t1.probe_spec(key, ply) == Some(value),
{
    lemma_mask_le(key as usize, t0.mask());
    Flags::lemma_of(value.bound, t0.age_spec());
}

/// After a clear, probing any key finds nothing, and the table is not filled at
/// all.
pub proof fn lemma_probe_after_clear(t: &TranspositionTable, key: Key, ply: u8, n: int)
    requires
        t.wf(),
        t.slots().len() > 0,
        forall|i: int| 0 <= i < t.slots().len() ==> #[trigger] t.slots()[i] is None,
        0 <= n <= t.slots().len(),
    ensures
        t.probe_spec(key, ply) is None,
        filled(t.slots(), n) == 0,
    decreases n,
{
    lemma_mask_le(key as usize, t.mask());
    if n > 0 {
        lemma_probe_after_clear(t, key, ply, n - 1);
    }
}


/// A probe returns only what was stored for the very key probed: when it finds an
/// entry, the key's slot holds one stored for that key, whose depth and best move
/// it reads back; a slot that is empty or holds another key (a collision) is a
/// miss.
pub proof fn lemma_probe_own_key(t: &TranspositionTable, key: Key, ply: u8)
    ensures
        t.probe_spec(key, ply) matches Some(e) ==> (t.slots()[slot(key, t.mask())] matches Some(s)
            && s.key == key && e.depth == s.depth && e.best_move == s.best_move),
        !(t.slots()[slot(key, t.mask())] matches Some(s) && s.key == key) ==> t.probe_spec(key, ply) is None,
{
}

/// Storing an entry for one key, when it replaces the slot's content: a probe of
/// any other key sharing that slot then misses, and a probe of the stored key finds
/// the entry's depth, bound and best move, and its score when read at the ply it
/// was stored at.
pub proof fn lemma_store_then_probe(
    t: &TranspositionTable,
    after: &TranspositionTable,
    k1: Key,
    k2: Key,
    ply: u8,
    read_ply: u8,
    v: Entry,
)
    requires
        t.wf(),
        t.slots().len() > 0,
        t.replaces(k1, v.depth),
        after.mask() == t.mask(),
        after.age_spec() == t.age_spec(),
        after.slots() == t.stored_slots(k1, ply, v),
    ensures
        k2 != k1 && slot(k2, t.mask()) == slot(k1, t.mask()) ==> after.probe_spec(k2, read_ply) is None,
        after.probe_spec(k1, read_ply) matches Some(e) && e.depth == v.depth && e.best_move == v.best_move
            && e.bound == v.bound,
        read_ply == ply && -INFINITY <= v.score <= INFINITY ==> after.probe_spec(k1, read_ply)->0.score
            == v.score,
{
    lemma_mask_le(k1 as usize, t.mask());
    Flags::lemma_of(v.bound, t.age_spec());
}

} // verus!
