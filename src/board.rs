//! The packed board: sixteen 4-bit ranks in one `u64`, row `k` in bits
//! `[16k, 16k + 16)`, cell `4k + c` in bits `[4(4k + c), 4(4k + c) + 4)`.
use vstd::prelude::*;

verus! {

/// Mask that keeps the first column of a board (one nibble per row).
pub const COL_MASK: u64 = 0x000F_000F_000F_000Fu64;

/// Mask that keeps one 16-bit row.
pub const ROW_MASK: u64 = 0xFFFFu64;

/// The rank held by cell `i` (0 for an empty cell, else the tile is `2^rank`).
pub open spec fn rank(b: u64, i: int) -> u64 {
    (b >> ((4 * i) as u64)) & 0xFu64
}

/// The 16-bit row `k` of a board.
pub open spec fn row_at(b: u64, k: int) -> u16 {
    ((b >> ((16 * k) as u64)) & 0xFFFFu64) as u16
}

/// The nibble `k` of a 16-bit row.
pub open spec fn row_cell(row: u16, k: int) -> u16 {
    (row >> ((4 * k) as u16)) & 0xFu16
}

/// Number of empty cells among the first `n` cells.
pub open spec fn empty_below(b: u64, n: nat) -> nat
    decreases n,
{
    if n == 0 {
        0
    } else {
        empty_below(b, (n - 1) as nat) + if rank(b, n - 1) == 0 { 1nat } else { 0nat }
    }
}

/// Number of occupied cells among the first `n` cells.
pub open spec fn occupied_below(b: u64, n: nat) -> nat
    decreases n,
{
    if n == 0 {
        0
    } else {
        occupied_below(b, (n - 1) as nat) + if rank(b, n - 1) != 0 { 1nat } else { 0nat }
    }
}

/// Number of empty cells of the board.
pub open spec fn empty_cells(b: u64) -> nat {
    empty_below(b, 16)
}

/// Number of occupied cells of the board.
pub open spec fn occupied_cells(b: u64) -> nat {
    occupied_below(b, 16)
}

/// Largest rank among the first `n` cells.
pub open spec fn max_rank_below(b: u64, n: nat) -> u64
    decreases n,
{
    if n == 0 {
        0
    } else {
        let m = max_rank_below(b, (n - 1) as nat);
        if rank(b, n - 1) > m { rank(b, n - 1) } else { m }
    }
}

/// Largest rank on the board.
pub open spec fn max_rank(b: u64) -> u64 {
    max_rank_below(b, 16)
}

/// Rank `r` stands in some cell of the board.
pub open spec fn rank_present(b: u64, r: u64) -> bool {
    exists|i: int| 0 <= i < 16 && #[trigger] rank(b, i) == r
}

/// Number of distinct nonzero ranks below `n` present on the board.
pub open spec fn distinct_ranks_below(b: u64, n: nat) -> nat
    decreases n,
{
    if n <= 1 {
        0
    } else {
        distinct_ranks_below(b, (n - 1) as nat) + if rank_present(b, (n - 1) as u64) {
            1nat
        } else {
            0nat
        }
    }
}

/// Number of distinct nonzero ranks present on the board.
pub open spec fn distinct_ranks(b: u64) -> nat {
    distinct_ranks_below(b, 16)
}

/// The transposition network: keeps the diagonal blocks, swaps the
/// off-diagonal nibbles of each 2x2 block, then the off-diagonal 2x2 blocks.
pub open spec fn transpose_spec(b: u64) -> u64 {
    let a1 = b & 0xF0F00F0FF0F00F0Fu64;
    let a2 = b & 0x0000F0F00000F0F0u64;
    let a3 = b & 0x0F0F00000F0F0000u64;
    let a = a1 | (a2 << 12u64) | (a3 >> 12u64);
    let b1 = a & 0xFF00FF0000FF00FFu64;
    let b2 = a & 0x00FF00FF00000000u64;
    let b3 = a & 0x00000000FF00FF00u64;
    b1 | (b2 >> 24u64) | (b3 << 24u64)
}

/// The row with its four nibbles in reverse order.
pub open spec fn reverse_row_spec(row: u16) -> u16 {
    (row >> 12u16) | ((row >> 4u16) & 0x00F0u16) | ((row << 4u16) & 0x0F00u16) | (row << 12u16)
}

/// The row's four nibbles copied down the first column of an empty board.
pub open spec fn unpack_col_spec(row: u16) -> u64 {
    let t = row as u64;
    (t | (t << 12u64) | (t << 24u64) | (t << 36u64)) & COL_MASK
}

/// The transposition network moves cell `(c, r)` to cell `(r, c)`.
pub proof fn lemma_transpose_cells(b: u64)
    ensures
        forall|r: int, c: int|
            0 <= r < 4 && 0 <= c < 4 ==> #[trigger] rank(transpose_spec(b), 4 * r + c) == rank(
                b,
                4 * c + r,
            ),
{
    let t = transpose_spec(b);
    assert(
        (t >> 0u64) & 0xF == (b >> 0u64) & 0xF
        && (t >> 4u64) & 0xF == (b >> 16u64) & 0xF
        && (t >> 8u64) & 0xF == (b >> 32u64) & 0xF
        && (t >> 12u64) & 0xF == (b >> 48u64) & 0xF
        && (t >> 16u64) & 0xF == (b >> 4u64) & 0xF
        && (t >> 20u64) & 0xF == (b >> 20u64) & 0xF
        && (t >> 24u64) & 0xF == (b >> 36u64) & 0xF
        && (t >> 28u64) & 0xF == (b >> 52u64) & 0xF
        && (t >> 32u64) & 0xF == (b >> 8u64) & 0xF
        && (t >> 36u64) & 0xF == (b >> 24u64) & 0xF
        && (t >> 40u64) & 0xF == (b >> 40u64) & 0xF
        && (t >> 44u64) & 0xF == (b >> 56u64) & 0xF
        && (t >> 48u64) & 0xF == (b >> 12u64) & 0xF
        && (t >> 52u64) & 0xF == (b >> 28u64) & 0xF
        && (t >> 56u64) & 0xF == (b >> 44u64) & 0xF
        && (t >> 60u64) & 0xF == (b >> 60u64) & 0xF
    ) by (bit_vector)
        requires
            t == transpose_spec(b),
    ;
    assert forall|r: int, c: int| 0 <= r < 4 && 0 <= c < 4 implies #[trigger] rank(t, 4 * r + c)
        == rank(b, 4 * c + r) by {
        assert(0 <= 4 * r + c < 16 && 0 <= 4 * c + r < 16);
    }
}

/// Transposing twice gives back the board.
pub proof fn lemma_transpose_involution(b: u64)
    ensures
        transpose_spec(transpose_spec(b)) == b,
{
    assert(transpose_spec(transpose_spec(b)) == b) by (bit_vector);
}

/// Returns the transposed board: cell `(r, c)` of the result is cell `(c, r)`
/// of `board`.
pub fn transpose(board: u64) -> (t: u64)
    ensures
        t == transpose_spec(board),
        forall|r: int, c: int|
            0 <= r < 4 && 0 <= c < 4 ==> #[trigger] rank(t, 4 * r + c) == rank(board, 4 * c + r),
{
    let a1: u64 = board & 0xF0F00F0FF0F00F0Fu64;
    let a2: u64 = board & 0x0000F0F00000F0F0u64;
    let a3: u64 = board & 0x0F0F00000F0F0000u64;
    let a: u64 = a1 | (a2 << 12u64) | (a3 >> 12u64);
    let b1: u64 = a & 0xFF00FF0000FF00FFu64;
    let b2: u64 = a & 0x00FF00FF00000000u64;
    let b3: u64 = a & 0x00000000FF00FF00u64;
    let t = b1 | (b2 >> 24u64) | (b3 << 24u64);
    proof {
        lemma_transpose_cells(board);
        assert(t == transpose_spec(board));
    }
    t
}

/// Reverses the order of the four 4-bit cells of a row.
pub fn reverse_row(row: u16) -> (r: u16)
    ensures
        r == reverse_row_spec(row),
        forall|k: int| 0 <= k < 4 ==> #[trigger] row_cell(r, k) == row_cell(row, 3 - k),
{
    assert(
        (reverse_row_spec(row) >> 0u16) & 0xF == (row >> 12u16) & 0xF
        && (reverse_row_spec(row) >> 4u16) & 0xF == (row >> 8u16) & 0xF
        && (reverse_row_spec(row) >> 8u16) & 0xF == (row >> 4u16) & 0xF
        && (reverse_row_spec(row) >> 12u16) & 0xF == (row >> 0u16) & 0xF
    ) by (bit_vector);
    (row >> 12u16) | ((row >> 4u16) & 0x00F0u16) | ((row << 4u16) & 0x0F00u16) | (row << 12u16)
}

/// Places the four nibbles of `row` down the first column of an otherwise
/// empty board: nibble `k` of the row becomes cell `(k, 0)`.
pub fn unpack_col(row: u16) -> (r: u64)
    ensures
        r == unpack_col_spec(row),
        forall|k: int, c: int|
            0 <= k < 4 && 0 <= c < 4 ==> #[trigger] rank(r, 4 * k + c) == if c == 0 {
                row_cell(row, k) as u64
            } else {
                0
            },
{
    let tmp: u64 = row as u64;
    let r = (tmp | (tmp << 12u64) | (tmp << 24u64) | (tmp << 36u64)) & COL_MASK;
    assert(
        (r >> 0u64) & 0xF == ((row >> 0u16) & 0xF) as u64
        && (r >> 16u64) & 0xF == ((row >> 4u16) & 0xF) as u64
        && (r >> 32u64) & 0xF == ((row >> 8u16) & 0xF) as u64
        && (r >> 48u64) & 0xF == ((row >> 12u16) & 0xF) as u64
        && (r >> 4u64) & 0xF == 0 && (r >> 8u64) & 0xF == 0 && (r >> 12u64) & 0xF == 0
        && (r >> 20u64) & 0xF == 0 && (r >> 24u64) & 0xF == 0 && (r >> 28u64) & 0xF == 0
        && (r >> 36u64) & 0xF == 0 && (r >> 40u64) & 0xF == 0 && (r >> 44u64) & 0xF == 0
        && (r >> 52u64) & 0xF == 0 && (r >> 56u64) & 0xF == 0 && (r >> 60u64) & 0xF == 0
    ) by (bit_vector)
        requires
            r == ((row as u64) | ((row as u64) << 12u64) | ((row as u64) << 24u64) | (
            (row as u64) << 36u64)) & 0x000F_000F_000F_000Fu64,
    ;
    assert forall|k: int, c: int| 0 <= k < 4 && 0 <= c < 4 implies #[trigger] rank(r, 4 * k + c)
        == if c == 0 {
        row_cell(row, k) as u64
    } else {
        0
    } by {
        assert(0 <= 4 * k + c < 16);
    }
    r
}


/// Every cell is either empty or occupied.
pub proof fn lemma_empty_plus_occupied(b: u64)
    ensures
        empty_cells(b) + occupied_cells(b) == 16,
{
    lemma_empty_plus_occupied_below(b, 16);
}

proof fn lemma_empty_plus_occupied_below(b: u64, n: nat)
    ensures
        empty_below(b, n) + occupied_below(b, n) == n,
    decreases n,
{
    if n > 0 {
        lemma_empty_plus_occupied_below(b, (n - 1) as nat);
    }
}

/// Returns the number of empty cells of the board.
pub fn count_empty(board: u64) -> (r: u64)
    ensures
        r == empty_cells(board),
{
    let mut rest: u64 = board;
    let mut count: u64 = 0;
    let mut k: u64 = 0;
    proof {
        lemma_shift_step(board, 0);
    }
    while k < 16
        invariant
            k <= 16,
            k < 16 ==> rest == board >> ((4 * k) as u64),
            count == empty_below(board, k as nat),
            count <= k,
        decreases 16 - k,
    {
        proof {
            lemma_shift_step(board, k);
        }
        if rest & 0xFu64 == 0 {
            count = count + 1;
        }
        rest = rest >> 4u64;
        k = k + 1;
    }
    count
}

proof fn lemma_shift_step(b: u64, k: u64)
    requires
        k < 16,
    ensures
        k + 1 < 16 ==> (b >> ((4 * k) as u64)) >> 4u64 == b >> ((4 * (k + 1)) as u64),
        k + 1 == 16 ==> (b >> ((4 * k) as u64)) >> 4u64 == 0,
        (b >> ((4 * k) as u64)) & 0xFu64 == rank(b, k as int),
        rank(b, k as int) < 16,
        b >> 0u64 == b,
{
    assert(b >> 0u64 == b) by (bit_vector);
    assert((b >> ((4 * k) as u64)) & 0xFu64 < 16) by (bit_vector);
    let s: u64 = (4 * k) as u64;
    assert(s < 60 ==> (b >> s) >> 4u64 == b >> ((s + 4) as u64)) by (bit_vector);
    assert(s == 60 ==> (b >> s) >> 4u64 == 0) by (bit_vector);
}

proof fn lemma_zero_tail(b: u64, k: u64, i: int)
    requires
        k < 16,
        b >> ((4 * k) as u64) == 0,
        k <= i < 16,
    ensures
        rank(b, i) == 0,
{
    let s: u64 = (4 * k) as u64;
    let t: u64 = (4 * i) as u64;
    assert(s <= t && b >> s == 0 ==> (b >> t) & 0xFu64 == 0) by (bit_vector);
}

/// Returns the largest rank on the board (0 for an empty board).
pub fn get_max_rank(board: u64) -> (r: u16)
    ensures
        r as u64 == max_rank(board),
{
    let mut rest: u64 = board;
    let mut maxrank: u16 = 0;
    let mut k: u64 = 0;
    proof {
        lemma_shift_step(board, 0);
    }
    while rest != 0
        invariant
            k <= 16,
            k < 16 ==> rest == board >> ((4 * k) as u64),
            k == 16 ==> rest == 0,
            maxrank as u64 == max_rank_below(board, k as nat),
        decreases 16 - k,
    {
        proof {
            lemma_shift_step(board, k);
        }
        let cell: u16 = (rest & 0xFu64) as u16;
        if cell > maxrank {
            maxrank = cell;
        }
        rest = rest >> 4u64;
        k = k + 1;
    }
    proof {
        lemma_max_rank_zero_tail(board, k);
    }
    maxrank
}

proof fn lemma_max_rank_zero_tail(b: u64, k: u64)
    requires
        k <= 16,
        k < 16 ==> b >> ((4 * k) as u64) == 0,
    ensures
        max_rank_below(b, k as nat) == max_rank(b),
{
    if k < 16 {
        lemma_max_rank_tail_from(b, k, 16);
    }
}

proof fn lemma_max_rank_tail_from(b: u64, k: u64, n: nat)
    requires
        k < 16,
        b >> ((4 * k) as u64) == 0,
        k <= n <= 16,
    ensures
        max_rank_below(b, k as nat) == max_rank_below(b, n),
    decreases n,
{
    if n > k {
        lemma_max_rank_tail_from(b, k, (n - 1) as nat);
        lemma_zero_tail(b, k, n - 1);
    }
}

proof fn lemma_set_bit(s: u16, r: u16, v: u16)
    requires
        r < 16,
        v < 16,
    ensures
        ((s | (1u16 << r)) >> v) & 1 == 1 <==> (((s >> v) & 1 == 1) || v == r),
{
    assert(((s | (1u16 << r)) >> v) & 1 == 1 <==> (((s >> v) & 1 == 1) || v == r))
        by (bit_vector)
        requires
            r < 16,
            v < 16,
    ;
}

/// Returns the number of distinct tile values on the board, and at least 2.
pub fn count_distinct_tiles(board: u64) -> (r: u32)
    ensures
        r == if distinct_ranks(board) < 2 { 2 } else { distinct_ranks(board) },
{
    let mut rest: u64 = board;
    let mut seen: u16 = 0;
    let mut k: u64 = 0;
    proof {
        lemma_shift_step(board, 0);
        assert forall|v: u16| v < 16 implies ((0u16 >> v) & 1 == 1) == false by {
            assert((0u16 >> v) & 1 == 0) by (bit_vector);
        }
    }
    while k < 16
        invariant
            k <= 16,
            k < 16 ==> rest == board >> ((4 * k) as u64),
            forall|v: u16|
                v < 16 ==> (((seen >> v) & 1 == 1) <==> exists|j: int|
                    0 <= j < k && #[trigger] rank(board, j) == v as u64),
        decreases 16 - k,
    {
        proof {
            lemma_shift_step(board, k);
        }
        let cell: u16 = (rest & 0xFu64) as u16;
        let ghost old_seen = seen;
        seen = seen | (1u16 << cell);
        proof {
            assert forall|v: u16| v < 16 implies (((seen >> v) & 1 == 1) <==> exists|j: int|
                0 <= j < k + 1 && #[trigger] rank(board, j) == v as u64) by {
                lemma_set_bit(old_seen, cell, v);
                if ((seen >> v) & 1 == 1) {
                    if v == cell {
                        assert(rank(board, k as int) == v as u64);
                    } else {
                        let j = choose|j: int| 0 <= j < k && #[trigger] rank(board, j) == v as u64;
                        assert(rank(board, j) == v as u64);
                    }
                }
                if exists|j: int| 0 <= j < k + 1 && #[trigger] rank(board, j) == v as u64 {
                    let j = choose|j: int| 0 <= j < k + 1 && #[trigger] rank(board, j) == v as u64;
                    if j < k {
                        assert(exists|j: int| 0 <= j < k && #[trigger] rank(board, j) == v as u64);
                    }
                }
            }
        }
        rest = rest >> 4u64;
        k = k + 1;
    }
    let mut count: u32 = 0;
    let mut v: u16 = 1;
    while v < 16
        invariant
            1 <= v <= 16,
            count as nat == distinct_ranks_below(board, v as nat),
            count < v,
            forall|w: u16|
                w < 16 ==> (((seen >> w) & 1 == 1) <==> exists|j: int|
                    0 <= j < 16 && #[trigger] rank(board, j) == w as u64),
        decreases 16 - v,
    {
        if (seen >> v) & 1u16 == 1 {
            count = count + 1;
        }
        proof {
            assert(rank_present(board, v as u64) <==> ((seen >> v) & 1 == 1));
        }
        v = v + 1;
    }
    if count < 2 {
        2
    } else {
        count
    }
}

/// The indices of the empty cells among the first `n`, in increasing order.
pub open spec fn empty_positions_below(b: u64, n: nat) -> Seq<int>
    decreases n,
{
    if n == 0 {
        Seq::empty()
    } else {
        let p = empty_positions_below(b, (n - 1) as nat);
        if rank(b, n - 1) == 0 {
            p.push(n - 1)
        } else {
            p
        }
    }
}

/// The indices of the empty cells of the board, in increasing order.
pub open spec fn empty_positions(b: u64) -> Seq<int> {
    empty_positions_below(b, 16)
}

/// The board with rank `t` written into the empty cell `i`.
pub open spec fn place(b: u64, i: int, t: u64) -> u64 {
    b | (t << ((4 * i) as u64))
}

pub proof fn lemma_empty_positions(b: u64, n: nat)
    requires
        n <= 16,
    ensures
        empty_positions_below(b, n).len() == empty_below(b, n),
        forall|j: int|
            0 <= j < empty_positions_below(b, n).len() ==> {
                let p = #[trigger] empty_positions_below(b, n)[j];
                0 <= p < n && rank(b, p) == 0
            },
        forall|j: int, l: int|
            0 <= j < l < empty_positions_below(b, n).len() ==> empty_positions_below(b, n)[j]
                < empty_positions_below(b, n)[l],
    decreases n,
{
    if n > 0 {
        lemma_empty_positions(b, (n - 1) as nat);
    }
}

/// Writing rank `t` into an empty cell changes that cell alone.
pub proof fn lemma_place_cells(b: u64, i: int, t: u64)
    requires
        0 <= i < 16,
        rank(b, i) == 0,
        t < 16,
    ensures
        rank(place(b, i, t), i) == t,
        forall|j: int| 0 <= j < 16 && j != i ==> #[trigger] rank(place(b, i, t), j) == rank(b, j),
{
    let s: u64 = (4 * i) as u64;
    assert(s <= 60 && (b >> s) & 0xF == 0 && t < 16 ==> ((b | (t << s)) >> s) & 0xF == t)
        by (bit_vector);
    assert forall|j: int| 0 <= j < 16 && j != i implies #[trigger] rank(place(b, i, t), j) == rank(
        b,
        j,
    ) by {
        let u: u64 = (4 * j) as u64;
        assert(s <= 60 && u <= 60 && (s + 4 <= u || u + 4 <= s) && t < 16 ==> ((b | (t << s)) >> u)
            & 0xF == (b >> u) & 0xF) by (bit_vector);
    }
}

/// Writes rank `tile` into the `index`-th empty cell of the board, counting
/// from cell 0.
pub fn insert_tile_at(board: u64, tile: u64, index: u64) -> (r: u64)
    requires
        tile < 16,
        index < empty_cells(board),
    ensures
        r == place(board, empty_positions(board)[index as int], tile),
{
    proof {
        lemma_empty_positions(board, 16);
        lemma_shift_step(board, 0);
    }
    let mut rest: u64 = board;
    let mut k: u64 = 0;
    let mut seen: u64 = 0;
    while k < 16
        invariant
            k <= 16,
            k < 16 ==> rest == board >> ((4 * k) as u64),
            seen == empty_below(board, k as nat),
            seen <= index,
            index < empty_cells(board),
            empty_positions(board).len() == empty_cells(board),
            empty_positions_below(board, k as nat) == empty_positions(board).take(seen as int),
        decreases 16 - k,
    {
        proof {
            lemma_shift_step(board, k);
            lemma_empty_positions(board, (k + 1) as nat);
            lemma_empty_prefix(board, (k + 1) as nat, 16);
        }
        if rest & 0xFu64 == 0 {
            if seen == index {
                proof {
                    let below = empty_positions_below(board, (k + 1) as nat);
                    assert(below == empty_positions_below(board, k as nat).push(k as int));
                    assert(below.len() == seen + 1);
                    assert(below == empty_positions(board).take(seen + 1));
                    assert(below[seen as int] == k);
                    assert(empty_positions(board).take(seen + 1)[seen as int] == empty_positions(
                        board,
                    )[seen as int]);
                }
                return board | (tile << (4 * k));
            }
            seen = seen + 1;
        }
        rest = rest >> 4u64;
        k = k + 1;
    }
    proof {
        lemma_empty_positions(board, 16);
    }
    board
}

proof fn lemma_empty_prefix(b: u64, n: nat, m: nat)
    requires
        n <= m <= 16,
    ensures
        empty_positions_below(b, n) == empty_positions_below(b, m).take(
            empty_positions_below(b, n).len() as int,
        ),
    decreases m,
{
    if m > n {
        lemma_empty_prefix(b, n, (m - 1) as nat);
        lemma_empty_positions(b, (m - 1) as nat);
        lemma_empty_positions(b, n);
        let p = empty_positions_below(b, (m - 1) as nat);
        assert(empty_positions_below(b, m).take(p.len() as int) =~= p);
        lemma_empty_positions_len_mono(b, n, (m - 1) as nat);
        assert(empty_positions_below(b, m).take(empty_positions_below(b, n).len() as int)
            =~= p.take(empty_positions_below(b, n).len() as int));
    } else {
        assert(empty_positions_below(b, n) =~= empty_positions_below(b, n).take(
            empty_positions_below(b, n).len() as int,
        ));
    }
}

proof fn lemma_empty_positions_len_mono(b: u64, n: nat, m: nat)
    requires
        n <= m,
    ensures
        empty_positions_below(b, n).len() <= empty_positions_below(b, m).len(),
    decreases m,
{
    if m > n {
        lemma_empty_positions_len_mono(b, n, (m - 1) as nat);
    }
}

/// Writing a nonzero rank into an empty cell occupies one more cell.
pub proof fn lemma_place_occupies(b: u64, i: int, t: u64)
    requires
        0 <= i < 16,
        rank(b, i) == 0,
        0 < t < 16,
    ensures
        occupied_cells(place(b, i, t)) == occupied_cells(b) + 1,
        empty_cells(place(b, i, t)) + 1 == empty_cells(b),
{
    lemma_place_cells(b, i, t);
    lemma_place_occupies_below(b, i, t, 16);
    lemma_empty_plus_occupied(b);
    lemma_empty_plus_occupied(place(b, i, t));
}

proof fn lemma_place_occupies_below(b: u64, i: int, t: u64, n: nat)
    requires
        0 <= i < 16,
        n <= 16,
        rank(place(b, i, t), i) == t,
        0 < t,
        rank(b, i) == 0,
        forall|j: int| 0 <= j < 16 && j != i ==> #[trigger] rank(place(b, i, t), j) == rank(b, j),
    ensures
        occupied_below(place(b, i, t), n) == occupied_below(b, n) + if i < n {
            1nat
        } else {
            0nat
        },
    decreases n,
{
    if n > 0 {
        lemma_place_occupies_below(b, i, t, (n - 1) as nat);
    }
}

} // verus!
