use expectimax_2048::row::{nonzero_ranks, row_heuristic_parts, row_score, slide_row_left};
use expectimax_2048::tables::{execute_move, init_tables, score_board};

#[test]
fn slide_merges_a_pair() {
    // [2,2,0,0] -> [4,0,0,0]
    assert_eq!(slide_row_left(0x0011), 0x0002);
    assert_eq!(row_score(slide_row_left(0x0011)), 4);
}

#[test]
fn slide_merges_pairs_once() {
    // [2,2,2,2] -> [4,4,0,0]
    assert_eq!(slide_row_left(0x1111), 0x0022);
}

#[test]
fn slide_moves_over_gaps() {
    // [0,2,0,2] -> [4,0,0,0]; [0,0,0,8] -> [8,0,0,0]; [2,4,2,4] unchanged
    assert_eq!(slide_row_left(0x1010), 0x0002);
    assert_eq!(slide_row_left(0x3000), 0x0003);
    assert_eq!(slide_row_left(0x2121), 0x2121);
    // [2,2,4,0] -> [4,4,0,0]: the new 4 does not merge again
    assert_eq!(slide_row_left(0x0211), 0x0022);
}

#[test]
fn slide_saturates_at_rank_fifteen() {
    assert_eq!(slide_row_left(0x00FF), 0x000F);
}

#[test]
fn row_score_sums_tile_scores() {
    assert_eq!(row_score(0), 0);
    // ranks [1,2,3,15]: 0 + 4 + 16 + 14 * 32768
    assert_eq!(row_score(0xF321), 4 + 16 + 14 * 32768);
}

#[test]
fn heuristic_parts_of_rows() {
    let h = row_heuristic_parts(0x1011);
    assert_eq!(h.empty, 1);
    assert_eq!(h.merges, 3);
    assert_eq!(h.mono_left, 1);
    assert_eq!(h.mono_right, 1);
    let h = row_heuristic_parts(0x1121);
    assert_eq!(h.empty, 0);
    assert_eq!(h.merges, 2);
    assert_eq!(h.mono_left, 15);
    assert_eq!(h.mono_right, 15);
    let h = row_heuristic_parts(0x4321);
    assert_eq!(h.merges, 0);
    assert_eq!(h.mono_left, 0);
    assert_eq!(h.mono_right, 255);
    assert_eq!(nonzero_ranks(0x1020), vec![2, 1]);
}

#[test]
fn moves_on_a_board() {
    let t = init_tables();
    // rows: [1,1,0,0] [0,0,0,0] [0,0,0,0] [1,0,0,0]
    let b: u64 = 0x0001_0000_0000_0011;
    assert_eq!(execute_move(&t, 2, b), 0x0001_0000_0000_0002);
    assert_eq!(execute_move(&t, 3, b), 0x1000_0000_0000_2000);
    assert_eq!(execute_move(&t, 0, b), 0x0000_0000_0000_0012);
    assert_eq!(execute_move(&t, 1, b), 0x0012_0000_0000_0000);
}

#[test]
fn no_op_move_stays_no_op() {
    let t = init_tables();
    let b: u64 = 0x0000_0000_0000_0021;
    for d in 0..4u8 {
        let once = execute_move(&t, d, b);
        if once == b {
            assert_eq!(execute_move(&t, d, once), once);
        }
    }
    assert_eq!(execute_move(&t, 2, b), b);
}

#[test]
fn score_of_boards() {
    let t = init_tables();
    assert_eq!(score_board(&t, 0), 0);
    assert_eq!(score_board(&t, 0x0002_0000_0003_0002), 4 + 16 + 4);
}
