//! Random tiles: what the game adds to the board after each move.
use vstd::prelude::*;
use rand::Rng;
use crate::board::{
    count_empty, empty_cells, empty_positions, insert_tile_at, lemma_empty_plus_occupied,
    lemma_empty_positions, lemma_place_cells, lemma_place_occupies, occupied_cells, place, rank,
};

verus! {

/// Relies on rand's `Rng::gen_range(low, high)` on the thread-local
/// generator: it panics when `low >= high` and otherwise returns a value in
/// `[low, high)`.
#[verifier::external_body]
fn random_below(n: u32) -> (r: u32)
    requires
        n > 0,
    ensures
        r < n,
{
    rand::thread_rng().gen_range(0, n)
}

/// Returns the rank of a new tile from a draw `x` out of ten equally likely
/// values: 1 (a 2) for the nine draws below 9, else 2 (a 4).
pub fn tile_for_draw(x: u32) -> (r: u64)
    requires
        x < 10,
    ensures
        r == if x < 9 { 1u64 } else { 2u64 },
{
    if x < 9 {
        1
    } else {
        2
    }
}

/// Returns the rank of a new tile: 1 (a 2) nine times in ten, else 2 (a 4).
pub fn draw_tile() -> (r: u64)
    ensures
        r == 1 || r == 2,
{
    tile_for_draw(random_below(10))
}

/// Writes rank `tile` into an empty cell chosen uniformly at random; a full
/// board is returned unchanged.
pub fn insert_tile_rand(board: u64, tile: u64) -> (r: u64)
    requires
        tile < 16,
    ensures
        empty_cells(board) == 0 ==> r == board,
        empty_cells(board) > 0 ==> exists|i: int|
            0 <= i < empty_cells(board) && r == place(board, #[trigger] empty_positions(board)[i], tile),
{
    let empty = count_empty(board);
    proof {
        lemma_empty_plus_occupied(board);
        lemma_empty_positions(board, 16);
    }
    if empty == 0 {
        return board;
    }
    let index = random_below(empty as u32);
    let r = insert_tile_at(board, tile, index as u64);
    assert(r == place(board, empty_positions(board)[index as int], tile));
    r
}

/// Returns the starting board with rank `first` in cell `cell` and rank
/// `second` in the `index`-th of the other, empty, cells.
pub fn place_initial_tiles(first: u64, cell: u32, second: u64, index: u64) -> (r: u64)
    requires
        0 < first < 16,
        cell < 16,
        0 < second < 16,
        index < 15,
    ensures
        r == place(place(0, cell as int, first), empty_positions(place(0, cell as int, first))[index as int], second),
        occupied_cells(r) == 2,
        rank(r, cell as int) == first,
        forall|i: int| 0 <= i < 16 ==> #[trigger] rank(r, i) <= first || rank(r, i) <= second,
{
    let board: u64 = first << (4 * cell as u64);
    proof {
        let s: u64 = (4 * cell) as u64;
        assert(0u64 | (first << s) == first << s) by (bit_vector);
        assert(board == place(0, cell as int, first));
        assert forall|j: int| 0 <= j < 16 implies #[trigger] rank(0, j) == 0 by {
            let u: u64 = (4 * j) as u64;
            assert((0u64 >> u) & 0xF == 0) by (bit_vector);
        }
        lemma_empty_plus_occupied(0);
        lemma_zero_board_empty(16);
        lemma_place_occupies(0, cell as int, first);
        lemma_place_cells(0, cell as int, first);
        lemma_empty_plus_occupied(board);
        lemma_empty_positions(board, 16);
    }
    let r = insert_tile_at(board, second, index);
    proof {
        let q = empty_positions(board)[index as int];
        lemma_place_occupies(board, q, second);
        lemma_place_cells(board, q, second);
    }
    r
}

/// Returns a board with two tiles, each of rank 1 or 2, in random cells.
pub fn initial_board() -> (r: u64)
    ensures
        occupied_cells(r) == 2,
        forall|i: int| 0 <= i < 16 ==> #[trigger] rank(r, i) <= 2,
{
    let first = draw_tile();
    let cell = random_below(16);
    let second = draw_tile();
    let index = random_below(15);
    place_initial_tiles(first, cell, second, index as u64)
}

proof fn lemma_zero_board_empty(n: nat)
    requires
        n <= 16,
        forall|j: int| 0 <= j < 16 ==> #[trigger] rank(0, j) == 0,
    ensures
        crate::board::occupied_below(0, n) == 0,
    decreases n,
{
    if n > 0 {
        lemma_zero_board_empty((n - 1) as nat);
    }
}

} // verus!
