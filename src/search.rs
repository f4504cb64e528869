//! The integer side of the expectimax search: how deep to look, the
//! bookkeeping of one search, its transposition cache, and the boards that a
//! random tile can make.
use vstd::prelude::*;
use std::collections::HashMap;
use crate::board::{
    count_distinct_tiles, distinct_ranks, empty_cells, empty_positions, insert_tile_at,
    lemma_empty_plus_occupied, lemma_empty_positions, place,
};

verus! {

broadcast use vstd::std_specs::hash::group_hash_axioms;

/// The cache is neither read nor written at this depth or deeper.
pub const CACHE_DEPTH_LIMIT: u32 = 15;

/// `max(2, distinct nonzero ranks)`, as `count_distinct_tiles` returns it.
pub open spec fn clamped_distinct(b: u64) -> nat {
    if distinct_ranks(b) < 2 {
        2
    } else {
        distinct_ranks(b)
    }
}

/// How deep a search from `b` looks: `max(3, clamped_distinct(b) - 2)`.
pub open spec fn depth_limit_spec(b: u64) -> nat {
    if clamped_distinct(b) < 5 {
        3
    } else {
        (clamped_distinct(b) - 2) as nat
    }
}

/// Returns the depth limit of a search from `board`: three, or two less than
/// the number of distinct tiles where that is more. The search deepens as
/// fewer distinct tiles remain.
pub fn search_depth_limit(board: u64) -> (d: u32)
    ensures
        d == depth_limit_spec(board),
        3 <= d <= 13,
{
    let distinct = count_distinct_tiles(board);
    proof {
        lemma_distinct_ranks_bound(board, 16);
    }
    if distinct < 5 {
        3
    } else {
        distinct - 2
    }
}

proof fn lemma_distinct_ranks_bound(b: u64, n: nat)
    ensures
        crate::board::distinct_ranks_below(b, n) <= if n < 1 {
            0
        } else {
            (n - 1) as nat
        },
    decreases n,
{
    if n > 1 {
        lemma_distinct_ranks_bound(b, (n - 1) as nat);
    }
}

/// A cached value and the depth at which it was computed.
pub struct CacheEntry<V> {
    pub depth: u8,
    pub value: V,
}

/// What a probe of the cache at depth `d` gives: the stored value where the
/// depth allows caching and the entry was computed at depth `d` or less.
pub open spec fn lookup_spec<V>(m: Map<u64, CacheEntry<V>>, board: u64, d: u32) -> Option<V> {
    if d < CACHE_DEPTH_LIMIT && m.contains_key(board) && m[board].depth as u32 <= d {
        Some(m[board].value)
    } else {
        None
    }
}

/// The cache after storing `v` for `board` at depth `d`: written only where
/// the depth allows caching.
pub open spec fn store_spec<V>(m: Map<u64, CacheEntry<V>>, board: u64, d: u32, v: V) -> Map<
    u64,
    CacheEntry<V>,
> {
    if d < CACHE_DEPTH_LIMIT {
        m.insert(board, CacheEntry { depth: d as u8, value: v })
    } else {
        m
    }
}

/// A value stored for a board at some depth is what a later probe at the
/// same depth gives, so a cached result equals the result that was computed.
pub proof fn lemma_cache_serves_stored<V>(m: Map<u64, CacheEntry<V>>, board: u64, d: u32, v: V)
    ensures
        lookup_spec(store_spec(m, board, d, v), board, d) == if d < CACHE_DEPTH_LIMIT {
            Some(v)
        } else {
            None::<V>
        },
{
}

/// The transposition cache of one search, keyed by board.
#[verifier::reject_recursive_types(V)]
pub struct TransTable<V> {
    entries: HashMap<u64, CacheEntry<V>>,
}

impl<V> View for TransTable<V> {
    type V = Map<u64, CacheEntry<V>>;

    closed spec fn view(&self) -> Map<u64, CacheEntry<V>> {
        self.entries@
    }
}

impl<V: Copy> TransTable<V> {
    /// Returns an empty cache.
    pub fn new() -> (t: Self)
        ensures
            t@ == Map::<u64, CacheEntry<V>>::empty(),
    {
        TransTable { entries: HashMap::new() }
    }

    /// Probes the cache for `board` at depth `depth`.
    pub fn lookup(&self, board: u64, depth: u32) -> (r: Option<V>)
        ensures
            r == lookup_spec(self@, board, depth),
    {
        if depth < CACHE_DEPTH_LIMIT {
            match self.entries.get(&board) {
                Some(entry) => {
                    if (entry.depth as u32) <= depth {
                        Some(entry.value)
                    } else {
                        None
                    }
                },
                None => None,
            }
        } else {
            None
        }
    }

    /// Stores `value` for `board`, computed at depth `depth`.
    pub fn store(&mut self, board: u64, depth: u32, value: V)
        ensures
            final(self)@ == store_spec(old(self)@, board, depth, value),
    {
        if depth < CACHE_DEPTH_LIMIT {
            self.entries.insert(board, CacheEntry { depth: depth as u8, value });
        }
    }
}

/// The state of one search from one board: its cache, where it stands, and
/// its counters.
#[verifier::reject_recursive_types(V)]
pub struct SearchState<V> {
    pub trans_table: TransTable<V>,
    /// The deepest depth reached so far.
    pub maxdepth: u32,
    /// The depth of the node being evaluated.
    pub curdepth: u32,
    /// How many probes the cache answered.
    pub cachehits: u64,
    /// How many moves were tried.
    pub moves_evaled: u64,
    /// The depth at which the search stops and evaluates statically.
    pub depth_limit: u32,
}

impl<V: Copy> SearchState<V> {
    /// Returns a fresh state for a search from `board`, at depth 0 with an
    /// empty cache.
    pub fn new(board: u64) -> (s: Self)
        ensures
            s.trans_table@ == Map::<u64, CacheEntry<V>>::empty(),
            s.curdepth == 0,
            s.maxdepth == 0,
            s.cachehits == 0,
            s.moves_evaled == 0,
            s.depth_limit == depth_limit_spec(board),
    {
        SearchState {
            trans_table: TransTable::new(),
            maxdepth: 0,
            curdepth: 0,
            cachehits: 0,
            moves_evaled: 0,
            depth_limit: search_depth_limit(board),
        }
    }

    /// The search has reached its depth limit here.
    pub fn at_depth_limit(&self) -> (r: bool)
        ensures
            r == (self.curdepth >= self.depth_limit),
    {
        self.curdepth >= self.depth_limit
    }

    /// Notes that a leaf was reached at the current depth.
    pub fn note_leaf(&mut self)
        ensures
            final(self).maxdepth == if old(self).curdepth > old(self).maxdepth {
                old(self).curdepth
            } else {
                old(self).maxdepth
            },
            final(self).curdepth == old(self).curdepth,
            final(self).depth_limit == old(self).depth_limit,
            final(self).cachehits == old(self).cachehits,
            final(self).moves_evaled == old(self).moves_evaled,
            final(self).trans_table@ == old(self).trans_table@,
    {
        if self.curdepth > self.maxdepth {
            self.maxdepth = self.curdepth;
        }
    }

    /// Steps one level down, below the depth limit.
    pub fn descend(&mut self)
        requires
            old(self).curdepth < old(self).depth_limit,
        ensures
            final(self).curdepth == old(self).curdepth + 1,
            final(self).maxdepth == old(self).maxdepth,
            final(self).depth_limit == old(self).depth_limit,
            final(self).cachehits == old(self).cachehits,
            final(self).moves_evaled == old(self).moves_evaled,
            final(self).trans_table@ == old(self).trans_table@,
    {
        self.curdepth = self.curdepth + 1;
    }

    /// Steps one level up.
    pub fn ascend(&mut self)
        requires
            old(self).curdepth > 0,
        ensures
            final(self).curdepth == old(self).curdepth - 1,
            final(self).maxdepth == old(self).maxdepth,
            final(self).depth_limit == old(self).depth_limit,
            final(self).cachehits == old(self).cachehits,
            final(self).moves_evaled == old(self).moves_evaled,
            final(self).trans_table@ == old(self).trans_table@,
    {
        self.curdepth = self.curdepth - 1;
    }

    /// Counts one move tried; the counter stops at its largest value.
    pub fn count_move(&mut self)
        ensures
            final(self).moves_evaled == if old(self).moves_evaled < u64::MAX {
                old(self).moves_evaled + 1
            } else {
                old(self).moves_evaled as int
            },
            final(self).curdepth == old(self).curdepth,
            final(self).maxdepth == old(self).maxdepth,
            final(self).depth_limit == old(self).depth_limit,
            final(self).cachehits == old(self).cachehits,
            final(self).trans_table@ == old(self).trans_table@,
    {
        if self.moves_evaled < u64::MAX {
            self.moves_evaled = self.moves_evaled + 1;
        }
    }

    /// Probes the cache for `board` at the current depth, counting a hit.
    pub fn cached(&mut self, board: u64) -> (r: Option<V>)
        ensures
            r == lookup_spec(old(self).trans_table@, board, old(self).curdepth),
            final(self).cachehits == if r is Some && old(self).cachehits < u64::MAX {
                old(self).cachehits + 1
            } else {
                old(self).cachehits as int
            },
            final(self).curdepth == old(self).curdepth,
            final(self).maxdepth == old(self).maxdepth,
            final(self).depth_limit == old(self).depth_limit,
            final(self).moves_evaled == old(self).moves_evaled,
            final(self).trans_table@ == old(self).trans_table@,
    {
        let r = self.trans_table.lookup(board, self.curdepth);
        if r.is_some() && self.cachehits < u64::MAX {
            self.cachehits = self.cachehits + 1;
        }
        r
    }

    /// Stores the value computed for `board` at the current depth.
    pub fn remember(&mut self, board: u64, value: V)
        ensures
            final(self).trans_table@ == store_spec(
                old(self).trans_table@,
                board,
                old(self).curdepth,
                value,
            ),
            final(self).curdepth == old(self).curdepth,
            final(self).maxdepth == old(self).maxdepth,
            final(self).depth_limit == old(self).depth_limit,
            final(self).cachehits == old(self).cachehits,
            final(self).moves_evaled == old(self).moves_evaled,
    {
        let d = self.curdepth;
        self.trans_table.store(board, d, value);
    }
}

/// Returns, for each empty cell in increasing order, the board with a 2
/// (rank 1) and the board with a 4 (rank 2) placed there.
pub fn spawn_children(board: u64) -> (c: Vec<(u64, u64)>)
    ensures
        c@.len() == empty_cells(board),
        forall|j: int|
            0 <= j < c@.len() ==> #[trigger] c@[j] == (
                place(board, empty_positions(board)[j], 1),
                place(board, empty_positions(board)[j], 2),
            ),
{
    let mut c: Vec<(u64, u64)> = Vec::new();
    let n = crate::board::count_empty(board);
    proof {
        lemma_empty_plus_occupied(board);
        lemma_empty_positions(board, 16);
    }
    let mut j: u64 = 0;
    while j < n
        invariant
            j <= n,
            n == empty_cells(board),
            c@.len() == j,
            forall|l: int|
                0 <= l < j ==> #[trigger] c@[l] == (
                    place(board, empty_positions(board)[l], 1),
                    place(board, empty_positions(board)[l], 2),
                ),
        decreases n - j,
    {
        let two = insert_tile_at(board, 1, j);
        let four = insert_tile_at(board, 2, j);
        c.push((two, four));
        j = j + 1;
    }
    c
}

} // verus!
