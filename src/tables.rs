//! The per-row tables built once at start-up, the four moves on a whole
//! board, and the board's game score.
use vstd::prelude::*;
use crate::board::{
    reverse_row, reverse_row_spec, row_at, transpose, transpose_spec, unpack_col,
    unpack_col_spec, ROW_MASK,
};
use crate::row::{row_score, row_score_spec, slide_left_spec, slide_row_left};

verus! {

/// The row that sliding `row` to the right leaves.
pub open spec fn slide_right_spec(row: u16) -> u16 {
    reverse_row_spec(slide_left_spec(reverse_row_spec(row)))
}

/// The board whose rows, first to last, are `r0` to `r3`.
pub open spec fn assemble(r0: u16, r1: u16, r2: u16, r3: u16) -> u64 {
    (r0 as u64) | ((r1 as u64) << 16u64) | ((r2 as u64) << 32u64) | ((r3 as u64) << 48u64)
}

/// The board after a move to the left: each row slid to the left.
pub open spec fn move_left_spec(b: u64) -> u64 {
    assemble(
        slide_left_spec(row_at(b, 0)),
        slide_left_spec(row_at(b, 1)),
        slide_left_spec(row_at(b, 2)),
        slide_left_spec(row_at(b, 3)),
    )
}

/// The board after a move to the right: each row slid to the right.
pub open spec fn move_right_spec(b: u64) -> u64 {
    assemble(
        slide_right_spec(row_at(b, 0)),
        slide_right_spec(row_at(b, 1)),
        slide_right_spec(row_at(b, 2)),
        slide_right_spec(row_at(b, 3)),
    )
}

/// The board after a move up: each column slid towards the first row.
pub open spec fn move_up_spec(b: u64) -> u64 {
    transpose_spec(move_left_spec(transpose_spec(b)))
}

/// The board after a move down: each column slid towards the last row.
pub open spec fn move_down_spec(b: u64) -> u64 {
    transpose_spec(move_right_spec(transpose_spec(b)))
}

/// The board after move `d`: 0 up, 1 down, 2 left, 3 right.
pub open spec fn move_spec(d: u8, b: u64) -> u64 {
    if d == 0 {
        move_up_spec(b)
    } else if d == 1 {
        move_down_spec(b)
    } else if d == 2 {
        move_left_spec(b)
    } else {
        move_right_spec(b)
    }
}

/// The game score of a board: the sum of its rows' scores.
pub open spec fn board_score_spec(b: u64) -> nat {
    row_score_spec(row_at(b, 0)) + row_score_spec(row_at(b, 1)) + row_score_spec(row_at(b, 2))
        + row_score_spec(row_at(b, 3))
}

/// For every 16-bit row: the XOR deltas of the four moves, and the row's
/// game score.
pub struct MoveTables {
    row_left: Vec<u16>,
    row_right: Vec<u16>,
    col_up: Vec<u64>,
    col_down: Vec<u64>,
    score: Vec<u32>,
}

impl MoveTables {
    /// Every table has one entry per row, and each entry is what its row gives.
    pub closed spec fn wf(&self) -> bool {
        &&& self.row_left@.len() == 65536
        &&& self.row_right@.len() == 65536
        &&& self.col_up@.len() == 65536
        &&& self.col_down@.len() == 65536
        &&& self.score@.len() == 65536
        &&& forall|i: int|
            0 <= i < 65536 ==> #[trigger] self.row_left@[i] == (i as u16) ^ slide_left_spec(
                i as u16,
            )
        &&& forall|i: int|
            0 <= i < 65536 ==> #[trigger] self.row_right@[i] == (i as u16) ^ slide_right_spec(
                i as u16,
            )
        &&& forall|i: int|
            0 <= i < 65536 ==> #[trigger] self.col_up@[i] == unpack_col_spec(i as u16)
                ^ unpack_col_spec(slide_left_spec(i as u16))
        &&& forall|i: int|
            0 <= i < 65536 ==> #[trigger] self.col_down@[i] == unpack_col_spec(i as u16)
                ^ unpack_col_spec(slide_right_spec(i as u16))
        &&& forall|i: int|
            0 <= i < 65536 ==> #[trigger] self.score@[i] == row_score_spec(i as u16)
                && self.score@[i] <= 1835008
    }
}

/// Builds the move and score tables for all 65536 rows.
pub fn init_tables() -> (t: MoveTables)
    ensures
        t.wf(),
{
    let mut row_left: Vec<u16> = Vec::new();
    let mut row_right: Vec<u16> = Vec::new();
    let mut col_up: Vec<u64> = Vec::new();
    let mut col_down: Vec<u64> = Vec::new();
    let mut score: Vec<u32> = Vec::new();
    let mut i: usize = 0;
    while i < 65536
        invariant
            i <= 65536,
            row_left@.len() == i,
            row_right@.len() == i,
            col_up@.len() == i,
            col_down@.len() == i,
            score@.len() == i,
            forall|j: int|
                0 <= j < i ==> #[trigger] row_left@[j] == (j as u16) ^ slide_left_spec(j as u16),
            forall|j: int|
                0 <= j < i ==> #[trigger] row_right@[j] == (j as u16) ^ slide_right_spec(
                    j as u16,
                ),
            forall|j: int|
                0 <= j < i ==> #[trigger] col_up@[j] == unpack_col_spec(j as u16)
                    ^ unpack_col_spec(slide_left_spec(j as u16)),
            forall|j: int|
                0 <= j < i ==> #[trigger] col_down@[j] == unpack_col_spec(j as u16)
                    ^ unpack_col_spec(slide_right_spec(j as u16)),
            forall|j: int|
                0 <= j < i ==> #[trigger] score@[j] == row_score_spec(j as u16) && score@[j]
                    <= 1835008,
        decreases 65536 - i,
    {
        let row: u16 = i as u16;
        let left: u16 = slide_row_left(row);
        let right: u16 = reverse_row(slide_row_left(reverse_row(row)));
        row_left.push(row ^ left);
        row_right.push(row ^ right);
        col_up.push(unpack_col(row) ^ unpack_col(left));
        col_down.push(unpack_col(row) ^ unpack_col(right));
        score.push(row_score(row));
        i = i + 1;
    }
    MoveTables { row_left, row_right, col_up, col_down, score }
}

proof fn lemma_row_delta(b: u64, s0: u16, s1: u16, s2: u16, s3: u16)
    ensures
        b ^ ((row_at(b, 0) ^ s0) as u64) ^ (((row_at(b, 1) ^ s1) as u64) << 16u64) ^ (((
        row_at(b, 2) ^ s2) as u64) << 32u64) ^ (((row_at(b, 3) ^ s3) as u64) << 48u64)
            == assemble(s0, s1, s2, s3),
{
    let r0 = row_at(b, 0);
    let r1 = row_at(b, 1);
    let r2 = row_at(b, 2);
    let r3 = row_at(b, 3);
    assert(b ^ ((r0 ^ s0) as u64) ^ (((r1 ^ s1) as u64) << 16u64) ^ (((r2 ^ s2) as u64)
        << 32u64) ^ (((r3 ^ s3) as u64) << 48u64) == (s0 as u64) | ((s1 as u64) << 16u64) | ((
    s2 as u64) << 32u64) | ((s3 as u64) << 48u64)) by (bit_vector)
        requires
            r0 == ((b >> 0u64) & 0xFFFFu64) as u16,
            r1 == ((b >> 16u64) & 0xFFFFu64) as u16,
            r2 == ((b >> 32u64) & 0xFFFFu64) as u16,
            r3 == ((b >> 48u64) & 0xFFFFu64) as u16,
    ;
}

proof fn lemma_col_delta(b: u64, s0: u16, s1: u16, s2: u16, s3: u16)
    ensures
        ({
            let t = transpose_spec(b);
            b ^ (unpack_col_spec(row_at(t, 0)) ^ unpack_col_spec(s0)) ^ ((unpack_col_spec(
                row_at(t, 1),
            ) ^ unpack_col_spec(s1)) << 4u64) ^ ((unpack_col_spec(row_at(t, 2))
                ^ unpack_col_spec(s2)) << 8u64) ^ ((unpack_col_spec(row_at(t, 3))
                ^ unpack_col_spec(s3)) << 12u64) == transpose_spec(assemble(s0, s1, s2, s3))
        }),
{
    let t = transpose_spec(b);
    let r0 = row_at(t, 0);
    let r1 = row_at(t, 1);
    let r2 = row_at(t, 2);
    let r3 = row_at(t, 3);
    let u0 = unpack_col_spec(r0);
    let u1 = unpack_col_spec(r1);
    let u2 = unpack_col_spec(r2);
    let u3 = unpack_col_spec(r3);
    let v0 = unpack_col_spec(s0);
    let v1 = unpack_col_spec(s1);
    let v2 = unpack_col_spec(s2);
    let v3 = unpack_col_spec(s3);
    let a = assemble(s0, s1, s2, s3);
    let ta = transpose_spec(a);
    assert(b ^ (u0 ^ v0) ^ ((u1 ^ v1) << 4u64) ^ ((u2 ^ v2) << 8u64) ^ ((u3 ^ v3) << 12u64)
        == ta) by (bit_vector)
        requires
            t == ({
                let a1 = b & 0xF0F00F0FF0F00F0Fu64;
                let a2 = b & 0x0000F0F00000F0F0u64;
                let a3 = b & 0x0F0F00000F0F0000u64;
                let a = a1 | (a2 << 12u64) | (a3 >> 12u64);
                (a & 0xFF00FF0000FF00FFu64) | ((a & 0x00FF00FF00000000u64) >> 24u64) | ((a
                    & 0x00000000FF00FF00u64) << 24u64)
            }),
            r0 == ((t >> 0u64) & 0xFFFFu64) as u16,
            r1 == ((t >> 16u64) & 0xFFFFu64) as u16,
            r2 == ((t >> 32u64) & 0xFFFFu64) as u16,
            r3 == ((t >> 48u64) & 0xFFFFu64) as u16,
            u0 == ((r0 as u64) | ((r0 as u64) << 12u64) | ((r0 as u64) << 24u64) | ((
            r0 as u64) << 36u64)) & 0x000F_000F_000F_000Fu64,
            u1 == ((r1 as u64) | ((r1 as u64) << 12u64) | ((r1 as u64) << 24u64) | ((
            r1 as u64) << 36u64)) & 0x000F_000F_000F_000Fu64,
            u2 == ((r2 as u64) | ((r2 as u64) << 12u64) | ((r2 as u64) << 24u64) | ((
            r2 as u64) << 36u64)) & 0x000F_000F_000F_000Fu64,
            u3 == ((r3 as u64) | ((r3 as u64) << 12u64) | ((r3 as u64) << 24u64) | ((
            r3 as u64) << 36u64)) & 0x000F_000F_000F_000Fu64,
            v0 == ((s0 as u64) | ((s0 as u64) << 12u64) | ((s0 as u64) << 24u64) | ((
            s0 as u64) << 36u64)) & 0x000F_000F_000F_000Fu64,
            v1 == ((s1 as u64) | ((s1 as u64) << 12u64) | ((s1 as u64) << 24u64) | ((
            s1 as u64) << 36u64)) & 0x000F_000F_000F_000Fu64,
            v2 == ((s2 as u64) | ((s2 as u64) << 12u64) | ((s2 as u64) << 24u64) | ((
            s2 as u64) << 36u64)) & 0x000F_000F_000F_000Fu64,
            v3 == ((s3 as u64) | ((s3 as u64) << 12u64) | ((s3 as u64) << 24u64) | ((
            s3 as u64) << 36u64)) & 0x000F_000F_000F_000Fu64,
            a == (s0 as u64) | ((s1 as u64) << 16u64) | ((s2 as u64) << 32u64) | ((s3 as u64)
                << 48u64),
            ta == ({
                let a1 = a & 0xF0F00F0FF0F00F0Fu64;
                let a2 = a & 0x0000F0F00000F0F0u64;
                let a3 = a & 0x0F0F00000F0F0000u64;
                let aa = a1 | (a2 << 12u64) | (a3 >> 12u64);
                (aa & 0xFF00FF0000FF00FFu64) | ((aa & 0x00FF00FF00000000u64) >> 24u64) | ((aa
                    & 0x00000000FF00FF00u64) << 24u64)
            }),
    ;
}

proof fn lemma_row_index(b: u64, k: u64)
    requires
        k < 4,
    ensures
        ((b >> (16 * k)) & ROW_MASK) < 65536,
        ((b >> (16 * k)) & ROW_MASK) as u16 == row_at(b, k as int),
        (((b >> (16 * k)) & ROW_MASK) as u16) as int == ((b >> (16 * k)) & ROW_MASK) as int,
{
    let s: u64 = (16 * k) as u64;
    assert((b >> s) & 0xFFFFu64 < 65536) by (bit_vector);
}

impl MoveTables {
    fn row_left_at(&self, b: u64, k: u64) -> (d: u16)
        requires
            self.wf(),
            k < 4,
        ensures
            d == row_at(b, k as int) ^ slide_left_spec(row_at(b, k as int)),
    {
        proof {
            lemma_row_index(b, k);
        }
        self.row_left[((b >> (16 * k)) & ROW_MASK) as usize]
    }

    fn row_right_at(&self, b: u64, k: u64) -> (d: u16)
        requires
            self.wf(),
            k < 4,
        ensures
            d == row_at(b, k as int) ^ slide_right_spec(row_at(b, k as int)),
    {
        proof {
            lemma_row_index(b, k);
        }
        self.row_right[((b >> (16 * k)) & ROW_MASK) as usize]
    }

    fn col_up_at(&self, t: u64, k: u64) -> (d: u64)
        requires
            self.wf(),
            k < 4,
        ensures
            d == unpack_col_spec(row_at(t, k as int)) ^ unpack_col_spec(
                slide_left_spec(row_at(t, k as int)),
            ),
    {
        proof {
            lemma_row_index(t, k);
        }
        self.col_up[((t >> (16 * k)) & ROW_MASK) as usize]
    }

    fn col_down_at(&self, t: u64, k: u64) -> (d: u64)
        requires
            self.wf(),
            k < 4,
        ensures
            d == unpack_col_spec(row_at(t, k as int)) ^ unpack_col_spec(
                slide_right_spec(row_at(t, k as int)),
            ),
    {
        proof {
            lemma_row_index(t, k);
        }
        self.col_down[((t >> (16 * k)) & ROW_MASK) as usize]
    }

    fn score_at(&self, b: u64, k: u64) -> (s: u32)
        requires
            self.wf(),
            k < 4,
        ensures
            s == row_score_spec(row_at(b, k as int)),
            s <= 1835008,
    {
        proof {
            lemma_row_index(b, k);
        }
        self.score[((b >> (16 * k)) & ROW_MASK) as usize]
    }
}

/// Returns the board after move `mv` (0 up, 1 down, 2 left, 3 right). A move
/// that changes nothing returns `board` itself.
pub fn execute_move(tables: &MoveTables, mv: u8, board: u64) -> (r: u64)
    requires
        tables.wf(),
        mv < 4,
    ensures
        r == move_spec(mv, board),
{
    if mv == 0 || mv == 1 {
        let t = transpose(board);
        let (d0, d1, d2, d3) = if mv == 0 {
            (
                tables.col_up_at(t, 0),
                tables.col_up_at(t, 1),
                tables.col_up_at(t, 2),
                tables.col_up_at(t, 3),
            )
        } else {
            (
                tables.col_down_at(t, 0),
                tables.col_down_at(t, 1),
                tables.col_down_at(t, 2),
                tables.col_down_at(t, 3),
            )
        };
        proof {
            if mv == 0 {
                lemma_col_delta(
                    board,
                    slide_left_spec(row_at(t, 0)),
                    slide_left_spec(row_at(t, 1)),
                    slide_left_spec(row_at(t, 2)),
                    slide_left_spec(row_at(t, 3)),
                );
            } else {
                lemma_col_delta(
                    board,
                    slide_right_spec(row_at(t, 0)),
                    slide_right_spec(row_at(t, 1)),
                    slide_right_spec(row_at(t, 2)),
                    slide_right_spec(row_at(t, 3)),
                );
            }
        }
        board ^ d0 ^ (d1 << 4u64) ^ (d2 << 8u64) ^ (d3 << 12u64)
    } else {
        let (d0, d1, d2, d3) = if mv == 2 {
            (
                tables.row_left_at(board, 0),
                tables.row_left_at(board, 1),
                tables.row_left_at(board, 2),
                tables.row_left_at(board, 3),
            )
        } else {
            (
                tables.row_right_at(board, 0),
                tables.row_right_at(board, 1),
                tables.row_right_at(board, 2),
                tables.row_right_at(board, 3),
            )
        };
        proof {
            if mv == 2 {
                lemma_row_delta(
                    board,
                    slide_left_spec(row_at(board, 0)),
                    slide_left_spec(row_at(board, 1)),
                    slide_left_spec(row_at(board, 2)),
                    slide_left_spec(row_at(board, 3)),
                );
            } else {
                lemma_row_delta(
                    board,
                    slide_right_spec(row_at(board, 0)),
                    slide_right_spec(row_at(board, 1)),
                    slide_right_spec(row_at(board, 2)),
                    slide_right_spec(row_at(board, 3)),
                );
            }
        }
        board ^ (d0 as u64) ^ ((d1 as u64) << 16u64) ^ ((d2 as u64) << 32u64) ^ ((d3 as u64)
            << 48u64)
    }
}

/// Returns the game score of the board: the sum of its rows' scores.
pub fn score_board(tables: &MoveTables, board: u64) -> (s: u32)
    requires
        tables.wf(),
    ensures
        s == board_score_spec(board),
{
    tables.score_at(board, 0) + tables.score_at(board, 1) + tables.score_at(board, 2)
        + tables.score_at(board, 3)
}

/// A move that leaves a board unchanged leaves it unchanged again when
/// repeated.
pub proof fn lemma_noop_move_repeats(d: u8, b: u64)
    requires
        move_spec(d, b) == b,
    ensures
        move_spec(d, move_spec(d, b)) == move_spec(d, b),
{
}

} // verus!
