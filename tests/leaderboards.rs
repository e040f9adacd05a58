use fomolove_sonic::key::Key;
use fomolove_sonic::leaderboard::{update_leaderboard, LeaderBoard, TopGame};
use fomolove_sonic::team::TeamType;
use fomolove_sonic::winner::{rank_winners, WinnerAccount, WinnerTopGame};

fn key(b: u8) -> Key {
    Key::new([b; 32])
}

fn top(id: u8, score: u32, top_tile: u16) -> TopGame {
    TopGame { game: key(id), player: key(id), team: TeamType::MemeTeam, score, top_tile }
}

fn winner(id: u8, score: u32, top_tile: u16) -> WinnerTopGame {
    WinnerTopGame { user: key(id), team: TeamType::ChainTeam, season_id: 1, score, top_tile }
}

fn scores(lb: &LeaderBoard) -> Vec<u32> {
    lb.top_games.iter().map(|g| g.score).collect()
}

#[test]
fn season_board_keeps_best_three() {
    let mut lb = LeaderBoard::new(0, 0, 3);
    for (i, s) in [10u32, 20, 30, 5].iter().enumerate() {
        update_leaderboard(&mut lb, top(i as u8, *s, 2), 3);
    }
    assert_eq!(scores(&lb), vec![30, 20, 10]);
    assert_eq!(lb.min_score, 10);
    assert_eq!(lb.min_tile, 2);
}

#[test]
fn season_board_sorts_by_score_then_tile() {
    let mut lb = LeaderBoard::new(0, 0, 5);
    update_leaderboard(&mut lb, top(1, 50, 8), 5);
    update_leaderboard(&mut lb, top(2, 50, 32), 5);
    update_leaderboard(&mut lb, top(3, 60, 4), 5);
    update_leaderboard(&mut lb, top(4, 50, 16), 5);
    let order: Vec<(u32, u16)> = lb.top_games.iter().map(|g| (g.score, g.top_tile)).collect();
    assert_eq!(order, vec![(60, 4), (50, 32), (50, 16), (50, 8)]);
}

#[test]
fn season_board_thresholds_wait_until_full() {
    let mut lb = LeaderBoard::new(7, 3, 3);
    update_leaderboard(&mut lb, top(1, 40, 8), 3);
    update_leaderboard(&mut lb, top(2, 30, 4), 3);
    assert_eq!((lb.min_score, lb.min_tile), (7, 3));
    update_leaderboard(&mut lb, top(3, 20, 16), 3);
    assert_eq!((lb.min_score, lb.min_tile), (20, 16));
}

#[test]
fn season_board_evicts_one_per_insert() {
    let mut lb = LeaderBoard::new(0, 0, 5);
    for i in 0..5u8 {
        update_leaderboard(&mut lb, top(i, 100 + i as u32, 2), 5);
    }
    update_leaderboard(&mut lb, top(9, 1, 2), 2);
    assert_eq!(lb.top_games.len(), 5);
    assert_eq!(scores(&lb), vec![104, 103, 102, 101, 100]);
}

#[test]
fn season_board_equal_entries_keep_arrival_order() {
    let mut lb = LeaderBoard::new(0, 0, 3);
    update_leaderboard(&mut lb, top(1, 10, 4), 3);
    update_leaderboard(&mut lb, top(2, 10, 4), 3);
    let ids: Vec<u8> = lb.top_games.iter().map(|g| g.game.bytes[0]).collect();
    assert_eq!(ids, vec![1, 2]);
}

#[test]
fn season_board_accepts_above_thresholds() {
    let lb = LeaderBoard::new(100, 64, 3);
    assert!(lb.accepts(101, 64));
    assert!(!lb.accepts(100, 64));
    assert!(!lb.accepts(500, 32));
}

#[test]
fn winner_board_truncates_to_capacity() {
    let mut w = WinnerAccount::new(2);
    w.record_milestone(winner(0xA, 100, 2048));
    w.record_milestone(winner(0xB, 90, 2048));
    w.record_milestone(winner(0xC, 95, 2048));
    let kept: Vec<(u8, u32)> = w.leaderboard.iter().map(|e| (e.user.bytes[0], e.score)).collect();
    assert_eq!(kept, vec![(0xA, 100), (0xC, 95)]);
}

#[test]
fn winner_board_below_capacity_keeps_arrival_order() {
    let mut w = WinnerAccount::new(5);
    w.record_milestone(winner(1, 10, 2048));
    w.record_milestone(winner(2, 30, 2048));
    let users: Vec<u8> = w.leaderboard.iter().map(|e| e.user.bytes[0]).collect();
    assert_eq!(users, vec![1, 2]);
}

#[test]
fn winner_board_replaces_only_strictly_better() {
    let mut w = WinnerAccount::new(5);
    w.record_milestone(winner(1, 100, 2048));
    w.record_milestone(winner(1, 100, 2048));
    assert_eq!(w.leaderboard.len(), 1);
    w.record_milestone(winner(1, 90, 4096));
    assert_eq!((w.leaderboard[0].score, w.leaderboard[0].top_tile), (100, 2048));
    w.record_milestone(winner(1, 100, 4096));
    assert_eq!((w.leaderboard[0].score, w.leaderboard[0].top_tile), (100, 4096));
    w.record_milestone(winner(1, 120, 2048));
    assert_eq!((w.leaderboard[0].score, w.leaderboard[0].top_tile), (120, 2048));
    assert_eq!(w.leaderboard.len(), 1);
}

#[test]
fn winner_board_holds_one_entry_per_player() {
    let mut w = WinnerAccount::new(3);
    for round in 0..4u32 {
        for p in 1..6u8 {
            w.record_milestone(winner(p, round * 10 + p as u32, 2048));
        }
    }
    assert!(w.leaderboard.len() <= 3);
    for i in 0..w.leaderboard.len() {
        for j in i + 1..w.leaderboard.len() {
            assert_ne!(w.leaderboard[i].user, w.leaderboard[j].user);
        }
    }
}

#[test]
fn rank_winners_is_stable() {
    let v = vec![winner(1, 5, 2048), winner(2, 9, 2048), winner(3, 5, 2048), winner(4, 5, 4096)];
    let r = rank_winners(&v);
    let users: Vec<u8> = r.iter().map(|e| e.user.bytes[0]).collect();
    assert_eq!(users, vec![2, 4, 1, 3]);
}

#[test]
fn winner_board_cuts_to_capacity_at_once() {
    let mut w = WinnerAccount {
        max_winner_count: 1,
        leaderboard: vec![winner(1, 10, 2048), winner(2, 40, 2048), winner(3, 20, 2048), winner(4, 30, 2048)],
    };
    w.record_milestone(winner(5, 25, 2048));
    assert_eq!(w.leaderboard.len(), 1);
    assert_eq!(w.leaderboard[0].user, key(2));
}

#[test]
fn season_board_stays_sorted_under_many_inserts() {
    let mut lb = LeaderBoard::new(0, 0, 8);
    let mut seed: u64 = 99;
    for i in 0..200u32 {
        seed = seed.wrapping_mul(6364136223846793005).wrapping_add(1442695040888963407);
        let score = ((seed >> 33) % 50) as u32;
        let tile = 2u16 << ((seed >> 40) % 10);
        let before = lb.top_games.len();
        update_leaderboard(&mut lb, top((i % 250) as u8, score, tile), 8);
        assert_eq!(lb.top_games.len(), if before + 1 > 8 { before } else { before + 1 });
        for k in 1..lb.top_games.len() {
            let (a, b) = (&lb.top_games[k - 1], &lb.top_games[k]);
            assert!((a.score, a.top_tile) >= (b.score, b.top_tile));
        }
    }
    assert_eq!(lb.top_games.len(), 8);
}

#[test]
fn season_board_sorts_an_unsorted_list() {
    let mut lb = LeaderBoard {
        min_tile: 0,
        max_game_count: 3,
        min_score: 0,
        top_games: vec![top(1, 5, 2), top(2, 50, 2), top(3, 20, 2)],
    };
    update_leaderboard(&mut lb, top(4, 30, 2), 3);
    assert_eq!(scores(&lb), vec![50, 30, 20]);
    assert_eq!(lb.min_score, 20);
}
