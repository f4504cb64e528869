use expectimax_2048::board::{count_empty, get_max_rank};
use expectimax_2048::search::{search_depth_limit, spawn_children, SearchState, TransTable};
use expectimax_2048::spawn::{
    draw_tile, initial_board, insert_tile_rand, place_initial_tiles, tile_for_draw,
};

#[test]
fn depth_limit_grows_with_distinct_tiles() {
    assert_eq!(search_depth_limit(0), 3);
    assert_eq!(search_depth_limit(0x0000_0000_0054_3211), 3);
    assert_eq!(search_depth_limit(0x0000_0000_7654_3211), 5);
}

#[test]
fn cache_serves_entries_computed_no_deeper() {
    let mut t: TransTable<u32> = TransTable::new();
    assert_eq!(t.lookup(7, 3), None);
    t.store(7, 3, 99);
    assert_eq!(t.lookup(7, 3), Some(99));
    assert_eq!(t.lookup(7, 5), Some(99));
    assert_eq!(t.lookup(7, 2), None);
    t.store(8, 15, 1);
    assert_eq!(t.lookup(8, 15), None);
    assert_eq!(t.lookup(8, 16), None);
}

#[test]
fn search_state_tracks_depth_and_hits() {
    let mut s: SearchState<u32> = SearchState::new(0x0000_0000_7654_3211);
    assert_eq!(s.depth_limit, 5);
    assert!(!s.at_depth_limit());
    s.descend();
    s.remember(42, 10);
    assert_eq!(s.cached(42), Some(10));
    assert_eq!(s.cachehits, 1);
    s.ascend();
    assert_eq!(s.cached(42), None);
    s.note_leaf();
    assert_eq!(s.maxdepth, 0);
    s.count_move();
    assert_eq!(s.moves_evaled, 1);
}

#[test]
fn spawn_children_cover_each_empty_cell() {
    let b: u64 = 0x1111_1111_1111_1011;
    assert_eq!(spawn_children(b), vec![(0x1111_1111_1111_1111, 0x1111_1111_1111_1211)]);
    assert_eq!(spawn_children(0).len(), 16);
    assert_eq!(spawn_children(0)[3], (0x1000, 0x2000));
}

#[test]
fn random_tiles() {
    let mut twos = 0;
    for _ in 0..200 {
        let t = draw_tile();
        assert!(t == 1 || t == 2);
        if t == 1 {
            twos += 1;
        }
    }
    assert!(twos > 0);
    for _ in 0..50 {
        let b = initial_board();
        assert_eq!(count_empty(b), 14);
        assert!(get_max_rank(b) <= 2);
        let full: u64 = 0x1111_1111_1111_1111;
        assert_eq!(insert_tile_rand(full, 1), full);
        let one_gap: u64 = 0x1111_1111_1111_1101;
        assert_eq!(insert_tile_rand(one_gap, 2), 0x1111_1111_1111_1121);
    }
}

#[test]
fn draws_map_to_tiles() {
    for x in 0..9 {
        assert_eq!(tile_for_draw(x), 1);
    }
    assert_eq!(tile_for_draw(9), 2);
}

#[test]
fn initial_tiles_are_placed_where_drawn() {
    assert_eq!(place_initial_tiles(1, 0, 2, 0), 0x21);
    assert_eq!(place_initial_tiles(2, 5, 1, 14), 0x1000_0000_0020_0000);
    assert_eq!(place_initial_tiles(2, 5, 1, 5), 0x0000_0000_0120_0000);
}
