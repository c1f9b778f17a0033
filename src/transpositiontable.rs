//! Transposition cache: buckets of two entries, one kept by depth and one
//! always replaced, addressed by the position key modulo the table size.
use vstd::prelude::*;
use crate::types::Move;

verus! {

/// The value of checkmate; a mate found `n` plies from the root scores `MATE_SCORE - n`.
pub const MATE_SCORE: i32 = 3000000;

/// Scores above this (or below its negation) are mate scores.
pub const IS_MATE_SCORE: i32 = 2999700;

/// Bound on every score that reaches the cache.
pub const INFINITY: i32 = 3000001;

/// Deepest search depth that the cache stores.
pub const MAX_DEPTH: i32 = 128;

/// Largest distance from the root that the cache is told of.
pub const MAX_PLY: usize = 128;

/// A prime number of buckets, to spread keys that share low bits.
pub const PRIME_TABLE_SIZE: usize = 12582917;

pub const DEFAULT_TABLE_SIZE: usize = PRIME_TABLE_SIZE;

/// The kind of bound a stored score is.
#[derive(Debug, Clone, Copy, PartialEq, Eq, Structural)]
pub enum HFlag {
    NoFlag,
    Alpha,
    Beta,
    Exact,
}

#[derive(Debug, Clone, Copy, PartialEq, Eq, Structural)]
pub struct TTEntry {
    pub key: u64,
    pub m: Move,
    pub score: i32,
    pub depth: u8,
    pub flag: HFlag,
}

#[derive(Debug, Clone, Copy, PartialEq, Eq, Structural)]
pub struct Bucket {
    pub depth_preferred: TTEntry,
    pub always_replace: TTEntry,
}

#[derive(Debug, Clone, Copy, PartialEq, Eq, Structural)]
pub enum ProbeResult {
    Cutoff(i32),
    BestMove(Move),
    Nothing,
}

pub open spec fn null_entry() -> TTEntry {
    TTEntry { key: 0, m: Move::spec_null(), score: 0, depth: 0, flag: HFlag::NoFlag }
}

pub open spec fn null_bucket() -> Bucket {
    Bucket { depth_preferred: null_entry(), always_replace: null_entry() }
}

/// A score as stored: mate scores made independent of the ply they were found at.
pub open spec fn to_stored(score: int, ply: int) -> int {
    if score > IS_MATE_SCORE {
        score + ply
    } else if score < -IS_MATE_SCORE {
        score - ply
    } else {
        score
    }
}

/// A stored score read back at a ply.
pub open spec fn from_stored(score: int, ply: int) -> int {
    if score > IS_MATE_SCORE {
        score - ply
    } else if score < -IS_MATE_SCORE {
        score + ply
    } else {
        score
    }
}

pub open spec fn score_ok(score: i32) -> bool {
    -INFINITY <= score <= INFINITY
}

pub open spec fn valid_entry(e: TTEntry) -> bool {
    e == null_entry() || (e.flag != HFlag::NoFlag && -INFINITY - MAX_PLY <= e.score
        <= INFINITY + MAX_PLY)
}

pub open spec fn valid_bucket(b: Bucket) -> bool {
    valid_entry(b.depth_preferred) && valid_entry(b.always_replace)
}

/// An entry that holds a result for `key`; empty slots hold none.
pub open spec fn holds(e: TTEntry, key: u64) -> bool {
    e.flag != HFlag::NoFlag && e.key == key
}

/// The entry that `store` writes.
pub open spec fn stored_entry(
    key: u64,
    ply: int,
    best_move: Move,
    score: i32,
    flag: HFlag,
    depth: i32,
) -> TTEntry {
    TTEntry {
        key,
        m: best_move,
        score: to_stored(score as int, ply) as i32,
        depth: depth as u8,
        flag,
    }
}

/// A bucket after an entry is written to it.
pub open spec fn bucket_after_store(b: Bucket, e: TTEntry) -> Bucket {
    if e.depth >= b.depth_preferred.depth {
        Bucket { depth_preferred: e, ..b }
    } else {
        Bucket { always_replace: e, ..b }
    }
}

/// What a matching entry deep enough for the probe yields.
pub open spec fn resolve(e: TTEntry, ply: int, alpha: i32, beta: i32) -> ProbeResult {
    let s = from_stored(e.score as int, ply);
    match e.flag {
        HFlag::Alpha => if s <= alpha {
            ProbeResult::Cutoff(alpha)
        } else {
            ProbeResult::BestMove(e.m)
        },
        HFlag::Beta => if s >= beta {
            ProbeResult::Cutoff(beta)
        } else {
            ProbeResult::BestMove(e.m)
        },
        HFlag::Exact => ProbeResult::Cutoff(s as i32),
        HFlag::NoFlag => ProbeResult::BestMove(e.m),
    }
}

/// What a probe of a bucket yields.
pub open spec fn probe_bucket(b: Bucket, key: u64, ply: int, alpha: i32, beta: i32, depth: i32) -> ProbeResult {
    if holds(b.depth_preferred, key) || holds(b.always_replace, key) {
        let e = if holds(b.depth_preferred, key) {
            b.depth_preferred
        } else {
            b.always_replace
        };
        if e.depth >= depth {
            resolve(e, ply, alpha, beta)
        } else {
            ProbeResult::BestMove(e.m)
        }
    } else {
        ProbeResult::Nothing
    }
}

pub fn null_tt_entry() -> (r: TTEntry)
    ensures
        r == null_entry(),
{
    TTEntry { key: 0, m: Move::null(), score: 0, depth: 0, flag: HFlag::NoFlag }
}

pub fn null_tt_bucket() -> (r: Bucket)
    ensures
        r == null_bucket(),
{
    Bucket { depth_preferred: null_tt_entry(), always_replace: null_tt_entry() }
}

pub struct TranspositionTable<const SIZE: usize> {
    table: Vec<Bucket>,
}

pub type DefaultTT = TranspositionTable<DEFAULT_TABLE_SIZE>;

impl<const SIZE: usize> View for TranspositionTable<SIZE> {
    type V = Seq<Bucket>;

    closed spec fn view(&self) -> Seq<Bucket> {
        self.table@
    }
}

impl<const SIZE: usize> TranspositionTable<SIZE> {
    /// The table has its buckets and each of them is well formed.
    pub open spec fn wf(&self) -> bool {
        &&& SIZE > 0
        &&& self@.len() == SIZE
        &&& forall|i: int| 0 <= i < SIZE ==> #[trigger] valid_bucket(self@[i])
    }

    /// The bucket that a key is addressed to.
    pub open spec fn bucket_of(&self, key: u64) -> Bucket {
        self@[(key as int) % (SIZE as int)]
    }

    /// A table without buckets; `clear` or `clear_for_search` gives it its buckets.
    pub fn new() -> (r: Self)
        ensures
            r@.len() == 0,
    {
        TranspositionTable { table: Vec::new() }
    }

    fn fresh_buckets() -> (r: Vec<Bucket>)
        ensures
            r@ == Seq::new(SIZE as nat, |_i: int| null_bucket()),
    {
        let mut v: Vec<Bucket> = Vec::new();
        let mut i: usize = 0;
        while i < SIZE
            invariant
                i <= SIZE,
                v@ == Seq::new(i as nat, |_i: int| null_bucket()),
            decreases SIZE - i,
        {
            v.push(null_tt_bucket());
            i += 1;
        }
        v
    }

    /// Empties every bucket.
    pub fn clear(&mut self)
        requires
            SIZE > 0,
        ensures
            final(self)@ == Seq::new(SIZE as nat, |_i: int| null_bucket()),
            final(self).wf(),
    {
        self.table = Self::fresh_buckets();
    }

    /// Gives the table its buckets if it has none; keeps what it holds otherwise.
    pub fn clear_for_search(&mut self)
        requires
            SIZE > 0,
            old(self)@.len() == 0 || old(self).wf(),
        ensures
            old(self)@.len() == 0 ==> final(self)@ == Seq::new(SIZE as nat, |_i: int| null_bucket()),
            old(self)@.len() != 0 ==> final(self)@ == old(self)@,
            final(self).wf(),
    {
        if self.table.len() == 0 {
            self.table = Self::fresh_buckets();
        }
    }

    /// Stores a search result for `key`, found `ply` plies from the root
    /// at remaining depth `depth`.
    pub fn store(
        &mut self,
        key: u64,
        ply: usize,
        best_move: Move,
        score: i32,
        flag: HFlag,
        depth: i32,
    )
        requires
            old(self).wf(),
            ply <= MAX_PLY,
            0 <= depth <= MAX_DEPTH,
            score_ok(score),
            flag != HFlag::NoFlag,
        ensures
            final(self).wf(),
            final(self)@ == old(self)@.update(
                (key as int) % (SIZE as int),
                bucket_after_store(
                    old(self).bucket_of(key),
                    stored_entry(key, ply as int, best_move, score, flag, depth),
                ),
            ),
    {
        let index = (key % SIZE as u64) as usize;
        let mut s = score;
        if s > IS_MATE_SCORE {
            s = s + ply as i32;
        } else if s < -IS_MATE_SCORE {
            s = s - ply as i32;
        }
        let entry = TTEntry { key, m: best_move, score: s, depth: depth as u8, flag };
        let slot = self.table[index];
        assert(valid_bucket(slot));
        assert(valid_entry(entry));
        let new_slot = if depth >= slot.depth_preferred.depth as i32 {
            Bucket { depth_preferred: entry, ..slot }
        } else {
            Bucket { always_replace: entry, ..slot }
        };
        assert(valid_bucket(new_slot));
        self.table.set(index, new_slot);
        proof {
            assert forall|i: int| 0 <= i < SIZE implies #[trigger] valid_bucket(self@[i]) by {
                if i != index {
                    assert(valid_bucket(old(self)@[i]));
                }
            }
        }
    }

    /// Looks `key` up for a search `ply` plies from the root with window
    /// (`alpha`, `beta`) and remaining depth `depth`.
    pub fn probe(&mut self, key: u64, ply: usize, alpha: i32, beta: i32, depth: i32) -> (r: ProbeResult)
        requires
            old(self).wf(),
            ply <= MAX_PLY,
            0 <= depth <= MAX_DEPTH,
        ensures
            final(self)@ == old(self)@,
            r == probe_bucket(old(self).bucket_of(key), key, ply as int, alpha, beta, depth),
    {
        let index = (key % (SIZE as u64)) as usize;
        let slot = self.table[index];
        assert(valid_bucket(self@[index as int]));
        let e1 = slot.depth_preferred;
        let e2 = slot.always_replace;
        let h1 = e1.flag != HFlag::NoFlag && e1.key == key;
        let h2 = e2.flag != HFlag::NoFlag && e2.key == key;
        if h1 || h2 {
            let entry = if h1 { e1 } else { e2 };
            if entry.depth as i32 >= depth {
                let mut score = entry.score;
                if score > IS_MATE_SCORE {
                    score = score - ply as i32;
                } else if score < -IS_MATE_SCORE {
                    score = score + ply as i32;
                }
                match entry.flag {
                    HFlag::Alpha => {
                        if score <= alpha {
                            return ProbeResult::Cutoff(alpha);
                        }
                    },
                    HFlag::Beta => {
                        if score >= beta {
                            return ProbeResult::Cutoff(beta);
                        }
                    },
                    HFlag::Exact => {
                        return ProbeResult::Cutoff(score);
                    },
                    HFlag::NoFlag => {},
                }
            }
            return ProbeResult::BestMove(entry.m);
        }
        ProbeResult::Nothing
    }
}

/// A result stored at depth `depth` and probed for with the same key at a
/// depth no greater is found, and resolves by the stored bound kind and the
/// stored score read back at the probing ply. This holds unless an older,
/// deeper entry for the same key keeps the depth-preferred slot.
pub proof fn lemma_store_then_probe(
    b: Bucket,
    key: u64,
    ply: usize,
    best_move: Move,
    score: i32,
    flag: HFlag,
    depth: i32,
    probe_ply: usize,
    alpha: i32,
    beta: i32,
    probe_depth: i32,
)
    requires
        valid_bucket(b),
        ply <= MAX_PLY,
        probe_ply <= MAX_PLY,
        0 <= probe_depth <= depth <= MAX_DEPTH,
        score_ok(score),
        flag != HFlag::NoFlag,
        !holds(b.depth_preferred, key) || depth >= b.depth_preferred.depth,
    ensures
        ({
            let e = stored_entry(key, ply as int, best_move, score, flag, depth);
            probe_bucket(bucket_after_store(b, e), key, probe_ply as int, alpha, beta, probe_depth)
                == resolve(e, probe_ply as int, alpha, beta)
        }),
        from_stored(to_stored(score as int, ply as int), ply as int) == score,
{
}

/// A probe reports a result only from an entry that holds the probed key:
/// a different key addressed to the same bucket is a miss.
pub proof fn lemma_probe_no_false_hit(b: Bucket, key: u64, ply: int, alpha: i32, beta: i32, depth: i32)
    ensures
        probe_bucket(b, key, ply, alpha, beta, depth) != ProbeResult::Nothing ==> (holds(
            b.depth_preferred,
            key,
        ) || holds(b.always_replace, key)),
        !holds(b.depth_preferred, key) && !holds(b.always_replace, key) ==> probe_bucket(
            b,
            key,
            ply,
            alpha,
            beta,
            depth,
        ) == ProbeResult::Nothing,
{
}

/// Storing a shallower entry after a deeper one in the same bucket leaves
/// the deeper one in the depth-preferred slot.
pub proof fn lemma_shallow_keeps_deep(b: Bucket, deep: TTEntry, shallow: TTEntry)
    requires
        shallow.depth < deep.depth,
    ensures
        bucket_after_store(bucket_after_store(b, deep), shallow).depth_preferred == deep
            || deep.depth < b.depth_preferred.depth,
        deep.depth >= b.depth_preferred.depth ==> bucket_after_store(
            bucket_after_store(b, deep),
            shallow,
        ).depth_preferred == deep,
{
}

} // verus!
