//! Game sessions: registration, moves and leaderboard submission.
use vstd::prelude::*;

use crate::board::{game_over, max_int, move_fits, moved, same_cells, spawned, GameAccount};
use crate::board::{Direction, Grid};
use crate::error::FomoLoveErrorCode;
use crate::key::Key;
use crate::leaderboard::{games_sorted, inserted, update_leaderboard, TopGame};
use crate::season::{check_season_ended, season_active, SeasonAccount};
use crate::team::{TeamAccount, TeamType, UserAccount};
use crate::winner::{after_milestone, users_unique, WinnerAccount, WinnerTopGame};

verus! {

/// Top tile from which a game enters the global winner board.
pub const MILESTONE_TILE: u16 = 2048;

/// A player's record for one season.
#[derive(Clone, Copy, Debug)]
pub struct UserSeasonAccount {
    pub season_id: u8,
    pub hightest_score: u32,
    pub game_played: u64,
}

/// All cells are empty.
pub open spec fn grid_empty(b: Grid) -> bool {
    forall|r: int, c: int| 0 <= r < 4 && 0 <= c < 4 ==> b[r][c] == 0
}

/// `after` is a fresh game of asset `mint`: an empty board, score 0, top tile
/// 2, then two tiles spawned.
pub open spec fn fresh_game(mint: Key, after: GameAccount) -> bool {
    exists|empty: GameAccount, one: GameAccount|
        empty.score == 0 && empty.top_tile == 2 && empty.nft_mint == mint && grid_empty(empty.board)
            && #[trigger] spawned(empty, one) && #[trigger] spawned(one, after)
}

/// Asset suffix for a top tile: "1" for 2 up to "11" for 2048, "1" otherwise.
pub open spec fn suffix_text(top_tile: u16) -> Seq<char> {
    if top_tile == 2 {
        seq!['1']
    } else if top_tile == 4 {
        seq!['2']
    } else if top_tile == 8 {
        seq!['3']
    } else if top_tile == 16 {
        seq!['4']
    } else if top_tile == 32 {
        seq!['5']
    } else if top_tile == 64 {
        seq!['6']
    } else if top_tile == 128 {
        seq!['7']
    } else if top_tile == 256 {
        seq!['8']
    } else if top_tile == 512 {
        seq!['9']
    } else if top_tile == 1024 {
        seq!['1', '0']
    } else if top_tile == 2048 {
        seq!['1', '1']
    } else {
        seq!['1']
    }
}

/// The asset suffix for a top tile.
pub fn map_top_tile_to_suffix(top_tile: u16) -> (r: String)
    ensures
        r@ == suffix_text(top_tile),
{
    let s: &str = match top_tile {
        2 => "1",
        4 => "2",
        8 => "3",
        16 => "4",
        32 => "5",
        64 => "6",
        128 => "7",
        256 => "8",
        512 => "9",
        1024 => "10",
        2048 => "11",
        _ => "1",
    };
    proof {
        reveal_strlit("1");
        reveal_strlit("2");
        reveal_strlit("3");
        reveal_strlit("4");
        reveal_strlit("5");
        reveal_strlit("6");
        reveal_strlit("7");
        reveal_strlit("8");
        reveal_strlit("9");
        reveal_strlit("10");
        reveal_strlit("11");
    }
    assert(s@ =~= suffix_text(top_tile));
    s.to_owned()
}

/// The winner-board entry of a game that reached the milestone tile.
pub open spec fn milestone_entry(player: Key, team: TeamType, season_id: u8, g: GameAccount) -> WinnerTopGame {
    WinnerTopGame { user: player, team, season_id, score: g.score, top_tile: g.top_tile }
}

/// The season-leaderboard entry of a submitted game.
pub open spec fn submitted_entry(game_key: Key, player: Key, team: TeamType, g: GameAccount) -> TopGame {
    TopGame { game: game_key, player, team, score: g.score, top_tile: g.top_tile }
}

/// Empties the board, sets the score to 0 and the top tile to 2, then spawns two tiles.
pub fn reset_game_account(game_account: &mut GameAccount)
    ensures
        fresh_game(old(game_account).nft_mint, *final(game_account)),
{
    game_account.board = [[0u16; 4]; 4];
    game_account.score = 0;
    game_account.top_tile = 2;
    let ghost empty = *game_account;
    assert(grid_empty(empty.board));
    game_account.add_new_tile();
    let ghost one = *game_account;
    game_account.add_new_tile();
    assert(spawned(empty, one) && spawned(one, *game_account));
}

/// Starts a fresh game for asset `nft_mint` and counts it in the player's
/// season record, whose highest score restarts at 0. Fails with
/// `SeasonEnded` unless `now` lies in the season's window, then with
/// `NotChooseTeam` if the player has no team; a failure changes nothing.
pub fn register_game(
    season_account: &SeasonAccount,
    user_account: &UserAccount,
    user_season_account: &mut UserSeasonAccount,
    game_account: &mut GameAccount,
    nft_mint: Key,
    now: u64,
) -> (r: Result<(), FomoLoveErrorCode>)
    requires
        season_active(*season_account, now) && user_account.team != TeamType::NoTeam
            ==> old(user_season_account).game_played < u64::MAX,
    ensures
        !season_active(*season_account, now) ==> r == Err::<(), _>(FomoLoveErrorCode::SeasonEnded),
        season_active(*season_account, now) && user_account.team == TeamType::NoTeam ==> r == Err::<
            (),
            _,
        >(FomoLoveErrorCode::NotChooseTeam),
        r is Err ==> *final(user_season_account) == *old(user_season_account) && *final(game_account)
            == *old(game_account),
        season_active(*season_account, now) && user_account.team != TeamType::NoTeam ==> {
            &&& r == Ok::<(), FomoLoveErrorCode>(())
            &&& *final(user_season_account) == (UserSeasonAccount {
                season_id: season_account.season_id,
                hightest_score: 0,
                game_played: (old(user_season_account).game_played + 1) as u64,
            })
            &&& fresh_game(nft_mint, *final(game_account))
        },
{
    check_season_ended(season_account, now)?;
    if !(user_account.team == TeamType::ChainTeam || user_account.team == TeamType::MemeTeam) {
        return Err(FomoLoveErrorCode::NotChooseTeam);
    }
    user_season_account.hightest_score = 0;
    user_season_account.game_played += 1;
    user_season_account.season_id = season_account.season_id;

    game_account.nft_mint = nft_mint;
    reset_game_account(game_account);
    Ok(())
}

/// Plays one move. Fails with `TeamTypeMismatch` if the player's team is
/// not `user_team_account`'s, with `GameNotChange` if the move changes no
/// cell, and with `GameOver` if the moved board has no move left; a failure
/// changes nothing. Otherwise a tile is spawned, the player's season high
/// score is raised to the game's score, a game whose top tile reaches the
/// milestone is recorded on the winner board, and the asset suffix of the
/// new top tile is returned when the top tile rose.
pub fn make_move(
    game: &mut GameAccount,
    user_account: &UserAccount,
    user_team_account: &TeamAccount,
    user_season_account: &mut UserSeasonAccount,
    winner_account: &mut WinnerAccount,
    current_season_id: u8,
    player: Key,
    direction: Direction,
) -> (r: Result<Option<String>, FomoLoveErrorCode>)
    requires
        user_account.team == user_team_account.team_type ==> move_fits(*old(game), direction),
        old(winner_account).leaderboard@.len() < usize::MAX,
    ensures
        user_account.team != user_team_account.team_type ==> r == Err::<Option<String>, _>(
            FomoLoveErrorCode::TeamTypeMismatch,
        ),
        r is Err ==> *final(game) == *old(game) && *final(user_season_account) == *old(
            user_season_account) && *final(winner_account) == *old(winner_account),
        users_unique(old(winner_account).leaderboard@) ==> users_unique(
            final(winner_account).leaderboard@,
        ),
        user_account.team == user_team_account.team_type ==> exists|m: GameAccount|
            #[trigger] moved(*old(game), m, direction) && if same_cells(old(game).board, m.board) {
                r == Err::<Option<String>, _>(FomoLoveErrorCode::GameNotChange)
            } else if game_over(m.board) {
                r == Err::<Option<String>, _>(FomoLoveErrorCode::GameOver)
            } else {
                let g = *final(game);
                &&& spawned(m, g)
                &&& r is Ok
                &&& (r->Ok_0 is Some <==> g.top_tile != old(game).top_tile)
                &&& (r->Ok_0 is Some ==> r->Ok_0->Some_0@ == suffix_text(g.top_tile))
                &&& final(user_season_account).hightest_score == max_int(
                    old(user_season_account).hightest_score as int,
                    g.score as int,
                )
                &&& final(user_season_account).season_id == old(user_season_account).season_id
                &&& final(user_season_account).game_played == old(user_season_account).game_played
                &&& final(winner_account).max_winner_count == old(winner_account).max_winner_count
                &&& final(winner_account).leaderboard@ == if g.top_tile >= MILESTONE_TILE {
                    after_milestone(
                        old(winner_account).leaderboard@,
                        milestone_entry(player, user_account.team, current_season_id, g),
                        old(winner_account).max_winner_count as int,
                    )
                } else {
                    old(winner_account).leaderboard@
                }
            },
{
    if user_account.team != user_team_account.team_type {
        return Err(FomoLoveErrorCode::TeamTypeMismatch);
    }
    let old_top_tile = game.top_tile;
    let mut g = *game;
    let changed = g.apply_move(direction);
    let ghost m = g;
    assert(moved(*old(game), m, direction));
    if !changed {
        return Err(FomoLoveErrorCode::GameNotChange);
    }
    if g.is_game_over() {
        return Err(FomoLoveErrorCode::GameOver);
    }
    g.add_new_tile();
    if g.score > user_season_account.hightest_score {
        user_season_account.hightest_score = g.score;
    }
    let note = if g.top_tile != old_top_tile {
        Some(map_top_tile_to_suffix(g.top_tile))
    } else {
        None
    };
    if g.top_tile >= MILESTONE_TILE {
        winner_account.record_milestone(
            WinnerTopGame {
                user: player,
                team: user_account.team,
                season_id: current_season_id,
                score: g.score,
                top_tile: g.top_tile,
            },
        );
    }
    *game = g;
    Ok(note)
}

/// Submits a game to the season leaderboard and starts the session afresh.
/// Fails with `SeasonEnded` unless `now` lies in the season's window, then
/// with `LowTile` if the top tile is below the tile threshold, then with
/// `LowScore` unless the score exceeds the score threshold; a failure
/// changes nothing.
pub fn submit_leaderboard(
    season_account: &mut SeasonAccount,
    game_account: &mut GameAccount,
    user_account: &UserAccount,
    player: Key,
    game_key: Key,
    now: u64,
) -> (r: Result<(), FomoLoveErrorCode>)
    requires
        old(season_account).leaderboard.top_games@.len() < usize::MAX,
    ensures
        ({
            let s = *old(season_account);
            let g = *old(game_account);
            if !season_active(s, now) {
                r == Err::<(), _>(FomoLoveErrorCode::SeasonEnded)
            } else if g.top_tile < s.leaderboard.min_tile {
                r == Err::<(), _>(FomoLoveErrorCode::LowTile)
            } else if g.score <= s.leaderboard.min_score {
                r == Err::<(), _>(FomoLoveErrorCode::LowScore)
            } else {
                &&& r == Ok::<(), FomoLoveErrorCode>(())
                &&& inserted(
                    s.leaderboard,
                    final(season_account).leaderboard,
                    submitted_entry(game_key, player, user_account.team, g),
                    s.leaderboard.max_game_count as int,
                )
                &&& games_sorted(final(season_account).leaderboard.top_games@)
                &&& final(season_account).season_id == s.season_id
                &&& final(season_account).started_at == s.started_at
                &&& final(season_account).ended_at == s.ended_at
                &&& final(season_account).total_game_played == s.total_game_played
                &&& fresh_game(g.nft_mint, *final(game_account))
            }
        }),
        r is Err ==> *final(season_account) == *old(season_account) && *final(game_account) == *old(
            game_account),
{
    check_season_ended(season_account, now)?;
    if game_account.top_tile < season_account.leaderboard.min_tile {
        return Err(FomoLoveErrorCode::LowTile);
    }
    if game_account.score <= season_account.leaderboard.min_score {
        return Err(FomoLoveErrorCode::LowScore);
    }
    let top_game = TopGame {
        game: game_key,
        player,
        team: user_account.team,
        score: game_account.score,
        top_tile: game_account.top_tile,
    };
    let max = season_account.leaderboard.max_game_count as usize;
    update_leaderboard(&mut season_account.leaderboard, top_game, max);
    reset_game_account(game_account);
    Ok(())
}

} // verus!
