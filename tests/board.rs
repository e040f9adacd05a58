use fomolove_sonic::board::{grids_equal, slide_and_merge, Direction, GameAccount};
use fomolove_sonic::key::Key;

fn game(board: [[u16; 4]; 4]) -> GameAccount {
    GameAccount { nft_mint: Key::new([7u8; 32]), board, score: 0, top_tile: 2 }
}

fn keccak_first(data: &[u8]) -> u8 {
    solana_program::keccak::hash(data).0[0]
}

#[test]
fn row_with_two_pairs_merges_both() {
    let mut row = [2u16, 2, 4, 4];
    let (gain, peak) = slide_and_merge(&mut row);
    assert_eq!(row, [4, 8, 0, 0]);
    assert_eq!(gain, 12);
    assert_eq!(peak, 8);
}

#[test]
fn row_with_gaps_merges_across_them() {
    let mut row = [2u16, 0, 2, 0];
    let (gain, peak) = slide_and_merge(&mut row);
    assert_eq!(row, [4, 0, 0, 0]);
    assert_eq!(gain, 4);
    assert_eq!(peak, 4);
}

#[test]
fn row_without_pairs_stays() {
    let mut row = [2u16, 4, 2, 4];
    let (gain, peak) = slide_and_merge(&mut row);
    assert_eq!(row, [2, 4, 2, 4]);
    assert_eq!(gain, 0);
    assert_eq!(peak, 0);
}

#[test]
fn each_tile_merges_once_per_move() {
    let mut row = [2u16, 2, 2, 2];
    let (gain, _) = slide_and_merge(&mut row);
    assert_eq!(row, [4, 4, 0, 0]);
    assert_eq!(gain, 8);
    let mut row = [4u16, 2, 2, 0];
    slide_and_merge(&mut row);
    assert_eq!(row, [4, 4, 0, 0]);
}

#[test]
fn overflowing_merge_leaves_row() {
    let mut row = [32768u16, 32768, 0, 0];
    let (gain, peak) = slide_and_merge(&mut row);
    assert_eq!(row, [32768, 32768, 0, 0]);
    assert_eq!(gain, 0);
    assert_eq!(peak, 0);
}

#[test]
fn compaction_twice_is_compaction_once() {
    let mut row = [0u16, 2, 0, 4];
    slide_and_merge(&mut row);
    assert_eq!(row, [2, 4, 0, 0]);
    let mut again = row;
    let (gain, _) = slide_and_merge(&mut again);
    assert_eq!(again, row);
    assert_eq!(gain, 0);
}

#[test]
fn sliding_keeps_the_sum_of_tiles() {
    let rows = [[2u16, 2, 4, 4], [0, 8, 8, 8], [16, 0, 16, 2], [2, 4, 8, 16]];
    for r in rows.iter() {
        let mut row = *r;
        let before: u32 = r.iter().map(|&t| t as u32).sum();
        slide_and_merge(&mut row);
        let after: u32 = row.iter().map(|&t| t as u32).sum();
        assert_eq!(before, after);
    }
}

#[test]
fn move_left_scores_all_rows() {
    let mut g = game([[2, 2, 4, 4], [2, 0, 2, 0], [2, 4, 2, 4], [0, 0, 0, 8]]);
    g.move_left();
    assert_eq!(g.board, [[4, 8, 0, 0], [4, 0, 0, 0], [2, 4, 2, 4], [8, 0, 0, 0]]);
    assert_eq!(g.score, 16);
    assert_eq!(g.top_tile, 8);
}

#[test]
fn move_right_mirrors_left() {
    let mut g = game([[2, 2, 4, 4], [2, 0, 2, 0], [0, 0, 0, 0], [8, 0, 0, 0]]);
    g.move_right();
    assert_eq!(g.board, [[0, 0, 4, 8], [0, 0, 0, 4], [0, 0, 0, 0], [0, 0, 0, 8]]);
    assert_eq!(g.score, 16);
}

#[test]
fn move_up_and_down_work_on_columns() {
    let start = [[2, 0, 4, 0], [2, 0, 0, 0], [4, 0, 4, 0], [4, 16, 0, 2]];
    let mut up = game(start);
    up.move_up();
    assert_eq!(up.board, [[4, 16, 8, 2], [8, 0, 0, 0], [0, 0, 0, 0], [0, 0, 0, 0]]);
    assert_eq!(up.score, 20);
    assert_eq!(up.top_tile, 8);
    let mut down = game(start);
    down.move_down();
    assert_eq!(down.board, [[0, 0, 0, 0], [0, 0, 0, 0], [4, 0, 0, 0], [8, 16, 8, 2]]);
    assert_eq!(down.score, 20);
}

#[test]
fn apply_move_reports_change() {
    let mut g = game([[2, 4, 2, 4], [4, 2, 4, 2], [2, 4, 2, 4], [4, 2, 4, 2]]);
    for d in [Direction::Up, Direction::Down, Direction::Left, Direction::Right] {
        assert!(!g.apply_move(d));
    }
    assert_eq!(g.score, 0);
    let mut g = game([[2, 0, 0, 0], [0; 4], [0; 4], [0; 4]]);
    assert!(g.apply_move(Direction::Right));
    assert_eq!(g.board[0], [0, 0, 0, 2]);
}

#[test]
fn grids_equal_compares_every_cell() {
    let a = [[2u16; 4]; 4];
    let mut b = a;
    assert!(grids_equal(&a, &b));
    b[3][3] = 4;
    assert!(!grids_equal(&a, &b));
}

#[test]
fn game_over_needs_full_board_without_pairs() {
    let over = game([[2, 4, 2, 4], [4, 2, 4, 2], [2, 4, 2, 4], [4, 2, 4, 2]]);
    assert!(over.is_game_over());
    let with_gap = game([[2, 4, 2, 4], [4, 2, 4, 2], [2, 4, 0, 4], [4, 2, 4, 2]]);
    assert!(!with_gap.is_game_over());
    let with_row_pair = game([[2, 4, 2, 4], [4, 2, 4, 2], [2, 4, 4, 8], [4, 2, 8, 2]]);
    assert!(!with_row_pair.is_game_over());
    let with_column_pair = game([[2, 4, 2, 4], [4, 2, 4, 2], [2, 4, 2, 4], [4, 2, 4, 4]]);
    assert!(!with_column_pair.is_game_over());
}

#[test]
fn game_over_matches_legal_move_search() {
    let mut seed: u64 = 12345;
    for _ in 0..500 {
        let mut board = [[0u16; 4]; 4];
        for r in 0..4 {
            for c in 0..4 {
                seed = seed.wrapping_mul(6364136223846793005).wrapping_add(1442695040888963407);
                let e = (seed >> 33) % 5;
                board[r][c] = if e > 0 {
                    1u16 << e
                } else if (seed >> 40) % 4 == 0 {
                    0
                } else {
                    2
                };
            }
        }
        let g = game(board);
        let mut some_move_changes = false;
        for d in [Direction::Up, Direction::Down, Direction::Left, Direction::Right] {
            let mut h = g;
            if h.apply_move(d) {
                some_move_changes = true;
            }
        }
        assert_eq!(g.is_game_over(), !some_move_changes);
    }
}

#[test]
fn empty_cells_in_row_major_order() {
    let g = game([[2, 0, 2, 2], [2, 2, 2, 2], [2, 2, 2, 0], [0, 2, 2, 2]]);
    assert_eq!(g.empty_cells(), vec![1, 11, 12]);
}

#[test]
fn board_bytes_are_little_endian() {
    let g = game([[0x0102, 0, 0, 0], [0, 0, 0, 0], [0, 0, 0, 0], [0, 0, 0, 2048]]);
    let bytes = g.board_bytes();
    assert_eq!(bytes.len(), 32);
    assert_eq!(bytes[0], 0x02);
    assert_eq!(bytes[1], 0x01);
    assert_eq!(bytes[30], 0x00);
    assert_eq!(bytes[31], 0x08);
}

#[test]
fn tile_from_digest_is_four_on_multiples_of_ten() {
    assert_eq!(GameAccount::tile_from_digest(0), 4);
    assert_eq!(GameAccount::tile_from_digest(250), 4);
    assert_eq!(GameAccount::tile_from_digest(7), 2);
    assert_eq!(GameAccount::tile_from_digest(255), 2);
}

#[test]
fn put_tile_raises_top_tile() {
    let mut g = game([[0; 4]; 4]);
    g.put_tile(6, 4);
    assert_eq!(g.board[1][2], 4);
    assert_eq!(g.top_tile, 4);
    g.put_tile(0, 2);
    assert_eq!(g.top_tile, 4);
}

#[test]
fn spawn_follows_board_digest() {
    let board = [[2, 0, 4, 0], [0, 8, 0, 0], [0, 0, 0, 16], [0, 0, 2, 0]];
    let mut g = game(board);
    let empties = g.empty_cells();
    let bytes = g.board_bytes();
    let index = keccak_first(&bytes) as usize % empties.len();
    let value = if keccak_first(&[index as u8]) % 10 == 0 { 4 } else { 2 };
    let p = empties[index];
    g.add_new_tile();
    let mut expected = board;
    expected[p / 4][p % 4] = value;
    assert_eq!(g.board, expected);
    assert_eq!(g.score, 0);
}

#[test]
fn spawn_is_a_function_of_the_board() {
    let mut a = game([[0; 4]; 4]);
    let mut b = game([[0; 4]; 4]);
    a.add_new_tile();
    b.add_new_tile();
    assert_eq!(a.board, b.board);
    let filled: usize = a.board.iter().flatten().filter(|&&t| t != 0).count();
    assert_eq!(filled, 1);
}

#[test]
fn spawn_on_full_board_does_nothing() {
    let board = [[2, 4, 2, 4], [4, 2, 4, 2], [2, 4, 2, 4], [4, 2, 4, 2]];
    let mut g = game(board);
    g.add_new_tile();
    assert_eq!(g.board, board);
    assert_eq!(g.top_tile, 2);
}

#[test]
fn keys_compare_by_bytes() {
    let a = Key::new([1u8; 32]);
    let mut bytes = [1u8; 32];
    assert!(a.same_as(&Key::new(bytes)));
    bytes[31] = 2;
    assert!(!a.same_as(&Key::new(bytes)));
}

#[test]
fn blocked_row_earns_nothing() {
    let mut row = [16384u16, 16384, 32768, 32768];
    let (gain, peak) = slide_and_merge(&mut row);
    assert_eq!(row, [16384, 16384, 32768, 32768]);
    assert_eq!(gain, 0);
    assert_eq!(peak, 0);
}

#[test]
fn unchanged_move_keeps_score_and_top_tile() {
    let board = [[16384, 16384, 32768, 32768], [0; 4], [0; 4], [0; 4]];
    let mut g = game(board);
    g.top_tile = 32768;
    assert!(!g.apply_move(Direction::Left));
    assert_eq!(g.board, board);
    assert_eq!(g.score, 0);
    assert_eq!(g.top_tile, 32768);
}
