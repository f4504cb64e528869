use expectimax_2048::board::{
    count_distinct_tiles, count_empty, get_max_rank, insert_tile_at, reverse_row, transpose,
    unpack_col,
};

fn occupied(b: u64) -> u64 {
    (0..16).filter(|i| (b >> (4 * i)) & 0xF != 0).count() as u64
}

#[test]
fn transpose_moves_cells_across_diagonal() {
    // rows: [1,2,3,4] [5,6,7,8] [9,10,11,12] [13,14,15,0]
    let b: u64 = 0x0FED_CBA9_8765_4321;
    let t = transpose(b);
    // first row of the transpose is the first column: [1,5,9,13]
    assert_eq!(t & 0xFFFF, 0xD951);
    assert_eq!((t >> 48) & 0xFFFF, 0x0C84);
}

#[test]
fn transpose_twice_is_identity() {
    for b in [0u64, 1, 0x0FED_CBA9_8765_4321, u64::MAX, 0x1234_0000_0000_ABCD, 0xF000_0000_0000_000F] {
        assert_eq!(transpose(transpose(b)), b);
    }
}

#[test]
fn reverse_row_reverses_nibbles() {
    assert_eq!(reverse_row(0x4321), 0x1234);
    assert_eq!(reverse_row(0x00F1), 0x1F00);
}

#[test]
fn unpack_col_spreads_row_down_first_column() {
    assert_eq!(unpack_col(0x4321), 0x0004_0003_0002_0001);
    assert_eq!(unpack_col(0), 0);
}

#[test]
fn count_empty_counts_zero_cells() {
    assert_eq!(count_empty(0), 16);
    assert_eq!(count_empty(0x1111_1111_1111_1111), 0);
    assert_eq!(count_empty(0x0000_0000_0000_0021), 14);
}

#[test]
fn empty_and_occupied_cover_sixteen_cells() {
    for b in [0u64, 0x0000_0000_0000_0021, 0x1020_3040_0506_0708, u64::MAX] {
        assert_eq!(count_empty(b) + occupied(b), 16);
    }
}

#[test]
fn max_rank_finds_largest_tile() {
    assert_eq!(get_max_rank(0), 0);
    assert_eq!(get_max_rank(0x0000_0000_0000_0021), 2);
    assert_eq!(get_max_rank(0xB000_0000_0300_0001), 11);
}

#[test]
fn distinct_tiles_counts_each_rank_once() {
    // ranks {1, 1, 2, 3}
    assert_eq!(count_distinct_tiles(0x0000_0000_0000_3211), 3);
    assert_eq!(count_distinct_tiles(0), 2);
    assert_eq!(count_distinct_tiles(0x0000_0000_0000_0001), 2);
    assert_eq!(count_distinct_tiles(0x0000_0000_0054_3211), 5);
}

#[test]
fn insert_tile_at_fills_the_chosen_empty_cell() {
    // cells 0 and 2 hold tiles; empty cells are 1, 3, 4, ...
    let b: u64 = 0x0000_0000_0000_0302;
    assert_eq!(insert_tile_at(b, 1, 0), 0x0000_0000_0000_0312);
    assert_eq!(insert_tile_at(b, 2, 1), 0x0000_0000_0000_2302);
    assert_eq!(insert_tile_at(b, 1, 13), 0x1000_0000_0000_0302);
}
