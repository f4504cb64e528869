//! One row of four ranks: the slide to the left and the row's contribution
//! to the game score and to the heuristic.
use vstd::prelude::*;
use crate::board::row_cell;
use vstd::arithmetic::power2::{pow2, lemma2_to64, lemma_pow2_strictly_increases};
use vstd::bits::lemma_u32_shl_is_mul;

verus! {

/// The four ranks of a row, first cell first.
pub open spec fn row_ranks(row: u16) -> Seq<u16> {
    seq![row_cell(row, 0), row_cell(row, 1), row_cell(row, 2), row_cell(row, 3)]
}

/// The nonzero ranks of `s`, in order.
pub open spec fn compress(s: Seq<u16>) -> Seq<u16>
    decreases s.len(),
{
    if s.len() == 0 {
        s
    } else {
        let p = compress(s.drop_last());
        if s.last() == 0 {
            p
        } else {
            p.push(s.last())
        }
    }
}

/// The rank of the tile that two tiles of rank `r` merge into; rank 15 saturates.
pub open spec fn merged_rank(r: u16) -> u16 {
    if r >= 15 {
        15
    } else {
        (r + 1) as u16
    }
}

/// Merges equal neighbours of a gap-free sequence in pairs, from the front:
/// a tile made by a merge does not merge again.
pub open spec fn merge_pairs(s: Seq<u16>) -> Seq<u16>
    decreases s.len(),
{
    if s.len() < 2 {
        s
    } else if s[0] == s[1] {
        seq![merged_rank(s[0])] + merge_pairs(s.skip(2))
    } else {
        seq![s[0]] + merge_pairs(s.skip(1))
    }
}

/// `s` followed by zeros up to length `n`.
pub open spec fn pad_zeros(s: Seq<u16>, n: nat) -> Seq<u16> {
    s + Seq::new((n - s.len()) as nat, |i: int| 0u16)
}

/// The ranks of a row after sliding it to the left.
pub open spec fn slid_left(row: u16) -> Seq<u16> {
    pad_zeros(merge_pairs(compress(row_ranks(row))), 4)
}

/// Packs four ranks into a row, first rank in the low nibble.
pub open spec fn pack_row(s: Seq<u16>) -> u16 {
    s[0] | (s[1] << 4u16) | (s[2] << 8u16) | (s[3] << 12u16)
}

/// The row that sliding `row` to the left leaves.
pub open spec fn slide_left_spec(row: u16) -> u16 {
    pack_row(slid_left(row))
}

proof fn lemma_row_cell_bound(row: u16, k: int)
    requires
        0 <= k < 4,
    ensures
        row_cell(row, k) <= 15,
{
    let s: u16 = (4 * k) as u16;
    assert((row >> s) & 0xFu16 <= 15) by (bit_vector);
}

proof fn lemma_row_ranks(row: u16)
    ensures
        row_ranks(row).len() == 4,
        forall|k: int| 0 <= k < 4 ==> #[trigger] row_ranks(row)[k] == row_cell(row, k),
{
    assert forall|k: int| 0 <= k < 4 implies #[trigger] row_ranks(row)[k] == row_cell(row, k) by {
        if k == 0 {
        } else if k == 1 {
        } else if k == 2 {
        } else {
        }
    }
}

proof fn lemma_compress_len(s: Seq<u16>)
    ensures
        compress(s).len() <= s.len(),
    decreases s.len(),
{
    if s.len() > 0 {
        lemma_compress_len(s.drop_last());
    }
}

/// Returns the nonzero ranks of a row, first cell first.
pub fn nonzero_ranks(row: u16) -> (line: Vec<u16>)
    ensures
        line@ == compress(row_ranks(row)),
        line@.len() <= 4,
        forall|j: int| 0 <= j < line@.len() ==> #[trigger] line@[j] <= 15,
{
    let ghost ranks = row_ranks(row);
    let mut line: Vec<u16> = Vec::new();
    let mut k: u16 = 0;
    proof {
        lemma_row_ranks(row);
    }
    assert(ranks.take(0) =~= Seq::<u16>::empty());
    while k < 4
        invariant
            k <= 4,
            ranks == row_ranks(row),
            ranks.len() == 4,
            forall|j: int| 0 <= j < 4 ==> #[trigger] ranks[j] == row_cell(row, j),
            line@ == compress(ranks.take(k as int)),
            forall|j: int| 0 <= j < line@.len() ==> #[trigger] line@[j] <= 15,
        decreases 4 - k,
    {
        proof {
            lemma_row_cell_bound(row, k as int);
            assert(ranks.take(k + 1).drop_last() =~= ranks.take(k as int));
        }
        let cell: u16 = (row >> (4 * k)) & 0xFu16;
        assert(cell == ranks[k as int]);
        if cell != 0 {
            line.push(cell);
        }
        k = k + 1;
    }
    proof {
        assert(ranks.take(4) =~= ranks);
        lemma_compress_len(ranks);
    }
    line
}

/// Slides one row to the left: tiles move over empty cells, and equal
/// neighbours merge once, in pairs from the left.
pub fn slide_row_left(row: u16) -> (r: u16)
    ensures
        r == slide_left_spec(row),
{
    let line = nonzero_ranks(row);
    let mut out: Vec<u16> = Vec::new();
    let mut i: usize = 0;
    assert(line@.skip(0) =~= line@);
    assert(out@ + line@ =~= line@);
    while i < line.len()
        invariant
            i <= line@.len() <= 4,
            out@ + merge_pairs(line@.skip(i as int)) == merge_pairs(line@),
            out@.len() <= i,
            forall|j: int| 0 <= j < line@.len() ==> #[trigger] line@[j] <= 15,
        decreases line@.len() - i,
    {
        let ghost rest = line@.skip(i as int);
        if i + 1 < line.len() && line[i] == line[i + 1] {
            let m: u16 = if line[i] == 15 {
                15
            } else {
                line[i] + 1
            };
            out.push(m);
            proof {
                assert(rest.skip(2) =~= line@.skip(i + 2));
                assert(out@ + merge_pairs(line@.skip(i + 2)) =~= (out@.drop_last() + seq![m])
                    + merge_pairs(rest.skip(2)));
            }
            i = i + 2;
        } else {
            out.push(line[i]);
            proof {
                assert(rest.skip(1) =~= line@.skip(i + 1));
                if rest.len() >= 2 {
                    assert(out@ + merge_pairs(line@.skip(i + 1)) =~= (out@.drop_last() + seq![
                        line@[i as int],
                    ]) + merge_pairs(rest.skip(1)));
                } else {
                    assert(merge_pairs(rest) == rest);
                    assert(line@.skip(i + 1) =~= Seq::<u16>::empty());
                    assert(out@ + merge_pairs(line@.skip(i + 1)) =~= out@.drop_last() + rest);
                }
            }
            i = i + 1;
        }
    }
    proof {
        assert(line@.skip(i as int) =~= Seq::<u16>::empty());
        assert(out@ + merge_pairs(line@.skip(i as int)) =~= out@);
    }
    let ghost merged = out@;
    while out.len() < 4
        invariant
            merged.len() <= out@.len() <= 4,
            out@ == pad_zeros(merged, out@.len() as nat),
        decreases 4 - out@.len(),
    {
        out.push(0);
        proof {
            assert(out@ =~= pad_zeros(merged, out@.len() as nat));
        }
    }
    out[0] | (out[1] << 4u16) | (out[2] << 8u16) | (out[3] << 12u16)
}

/// The score that a tile of rank `r` stands for: the points earned by the
/// merges that made it, `(r - 1) * 2^r` for `r >= 2`.
pub open spec fn rank_score(r: u16) -> nat {
    if r >= 2 {
        ((r - 1) * pow2(r as nat)) as nat
    } else {
        0
    }
}

/// The score of a row: the sum of its tiles' scores.
pub open spec fn row_score_spec(row: u16) -> nat {
    rank_score(row_cell(row, 0)) + rank_score(row_cell(row, 1)) + rank_score(row_cell(row, 2))
        + rank_score(row_cell(row, 3))
}

fn tile_score(r: u16) -> (s: u32)
    requires
        r <= 15,
    ensures
        s == rank_score(r),
        s <= 458752,
{
    if r >= 2 {
        proof {
            lemma2_to64();
            if r < 15 {
                lemma_pow2_strictly_increases(r as nat, 15);
            }
            lemma_u32_shl_is_mul(1u32, r as u32);
            assert((r - 1) * pow2(r as nat) <= 14 * 32768) by (nonlinear_arith)
                requires
                    2 <= r <= 15,
                    pow2(r as nat) <= 32768,
            ;
        }
        ((r - 1) as u32) * (1u32 << (r as u32))
    } else {
        0
    }
}

/// Returns the game score of a row.
pub fn row_score(row: u16) -> (s: u32)
    ensures
        s == row_score_spec(row),
        s <= 1835008,
{
    proof {
        lemma_row_cell_bound(row, 0);
        lemma_row_cell_bound(row, 1);
        lemma_row_cell_bound(row, 2);
        lemma_row_cell_bound(row, 3);
    }
    tile_score((row >> 0u16) & 0xFu16) + tile_score((row >> 4u16) & 0xFu16) + tile_score(
        (row >> 8u16) & 0xFu16,
    ) + tile_score((row >> 12u16) & 0xFu16)
}

/// Cell `i` of the gap-free sequence `s` has an equal neighbour, so it
/// belongs to a run of two or more equal tiles.
pub open spec fn has_equal_neighbour(s: Seq<u16>, i: int) -> bool {
    (i > 0 && s[i - 1] == s[i]) || (i + 1 < s.len() && s[i + 1] == s[i])
}

/// Number of cells among the first `n` of `s` that have an equal neighbour.
pub open spec fn paired_below(s: Seq<u16>, n: nat) -> nat
    decreases n,
{
    if n == 0 {
        0
    } else {
        paired_below(s, (n - 1) as nat) + if has_equal_neighbour(s, n - 1) {
            1nat
        } else {
            0nat
        }
    }
}

/// Merge potential of a row: among its tiles, gaps ignored, the total
/// length of the runs of two or more equal tiles.
pub open spec fn row_merges(row: u16) -> nat {
    paired_below(compress(row_ranks(row)), compress(row_ranks(row)).len())
}

/// Number of empty cells of a row.
pub open spec fn row_empty(row: u16) -> nat {
    (if row_cell(row, 0) == 0 { 1nat } else { 0nat }) + (if row_cell(row, 1) == 0 {
        1nat
    } else {
        0nat
    }) + (if row_cell(row, 2) == 0 { 1nat } else { 0nat }) + (if row_cell(row, 3) == 0 {
        1nat
    } else {
        0nat
    })
}

/// `x` to the fourth power.
pub open spec fn pow4(x: u16) -> int {
    x * x * x * x
}

/// What the step from rank `a` to the next rank `b` adds to the
/// monotonicity sum of descending steps.
pub open spec fn descent(a: u16, b: u16) -> int {
    if a > b {
        pow4(a) - pow4(b)
    } else {
        0
    }
}

/// What the step from rank `a` to the next rank `b` adds to the
/// monotonicity sum of non-descending steps.
pub open spec fn ascent(a: u16, b: u16) -> int {
    if a > b {
        0
    } else {
        pow4(b) - pow4(a)
    }
}

/// Sum over the three steps of a row of the fourth-power drops.
pub open spec fn row_mono_left(row: u16) -> int {
    descent(row_cell(row, 0), row_cell(row, 1)) + descent(row_cell(row, 1), row_cell(row, 2))
        + descent(row_cell(row, 2), row_cell(row, 3))
}

/// Sum over the three steps of a row of the fourth-power rises.
pub open spec fn row_mono_right(row: u16) -> int {
    ascent(row_cell(row, 0), row_cell(row, 1)) + ascent(row_cell(row, 1), row_cell(row, 2))
        + ascent(row_cell(row, 2), row_cell(row, 3))
}

/// The integer ingredients of a row's heuristic value.
pub struct HeuristicParts {
    /// Empty cells.
    pub empty: u32,
    /// Tiles that stand in a run of equal tiles, gaps ignored.
    pub merges: u32,
    /// Monotonicity sum over the descending steps.
    pub mono_left: u32,
    /// Monotonicity sum over the other steps.
    pub mono_right: u32,
}

fn fourth_power(x: u16) -> (p: u32)
    requires
        x <= 15,
    ensures
        p == pow4(x),
        p <= 50625,
{
    assert(x * x <= 225) by (nonlinear_arith)
        requires
            x <= 15,
    ;
    assert(x * x * x <= 3375) by (nonlinear_arith)
        requires
            x <= 15,
    ;
    assert(x * x * x * x <= 50625) by (nonlinear_arith)
        requires
            x <= 15,
    ;
    let y: u32 = x as u32;
    let y2: u32 = y * y;
    let y3: u32 = y2 * y;
    y3 * y
}

proof fn lemma_pow4_monotone(a: u16, b: u16)
    requires
        b <= a,
    ensures
        pow4(b) <= pow4(a),
{
    assert(b * b <= a * a) by (nonlinear_arith)
        requires
            b <= a,
    ;
    assert((b * b) * (b * b) <= (a * a) * (a * a)) by (nonlinear_arith)
        requires
            0 <= b * b <= a * a,
    ;
    assert(b * b * b * b == (b * b) * (b * b)) by (nonlinear_arith);
    assert(a * a * a * a == (a * a) * (a * a)) by (nonlinear_arith);
}

fn mono_step(a: u16, b: u16) -> (r: (u32, u32))
    requires
        a <= 15,
        b <= 15,
    ensures
        r.0 == descent(a, b),
        r.1 == ascent(a, b),
        r.0 <= 50625,
        r.1 <= 50625,
{
    let pa = fourth_power(a);
    let pb = fourth_power(b);
    if a > b {
        proof {
            lemma_pow4_monotone(a, b);
        }
        (pa - pb, 0)
    } else {
        proof {
            lemma_pow4_monotone(b, a);
        }
        (0, pb - pa)
    }
}

/// Returns the integer ingredients of a row's heuristic value: its empty
/// cells, its merge potential and its two monotonicity sums.
pub fn row_heuristic_parts(row: u16) -> (h: HeuristicParts)
    ensures
        h.empty == row_empty(row),
        h.merges == row_merges(row),
        h.mono_left == row_mono_left(row),
        h.mono_right == row_mono_right(row),
{
    proof {
        lemma_row_cell_bound(row, 0);
        lemma_row_cell_bound(row, 1);
        lemma_row_cell_bound(row, 2);
        lemma_row_cell_bound(row, 3);
    }
    let c0 = (row >> 0u16) & 0xFu16;
    let c1 = (row >> 4u16) & 0xFu16;
    let c2 = (row >> 8u16) & 0xFu16;
    let c3 = (row >> 12u16) & 0xFu16;
    let mut empty: u32 = 0;
    if c0 == 0 {
        empty = empty + 1;
    }
    if c1 == 0 {
        empty = empty + 1;
    }
    if c2 == 0 {
        empty = empty + 1;
    }
    if c3 == 0 {
        empty = empty + 1;
    }
    let line = nonzero_ranks(row);
    let mut merges: u32 = 0;
    let mut i: usize = 0;
    while i < line.len()
        invariant
            i <= line@.len() <= 4,
            merges == paired_below(line@, i as nat),
            merges <= i,
        decreases line@.len() - i,
    {
        if (i > 0 && line[i - 1] == line[i]) || (i + 1 < line.len() && line[i + 1] == line[i]) {
            merges = merges + 1;
        }
        i = i + 1;
    }
    let s01 = mono_step(c0, c1);
    let s12 = mono_step(c1, c2);
    let s23 = mono_step(c2, c3);
    HeuristicParts {
        empty,
        merges,
        mono_left: s01.0 + s12.0 + s23.0,
        mono_right: s01.1 + s12.1 + s23.1,
    }
}

} // verus!
