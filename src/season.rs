//! Season lifecycle: configuration, season windows and the time gate.
use vstd::prelude::*;

use crate::error::FomoLoveErrorCode;
use crate::key::Key;
use crate::leaderboard::{games_sorted, LeaderBoard};
use crate::team::{TeamAccount, TeamType};
use crate::winner::WinnerAccount;

verus! {

/// Length of a season unless the maintainer changes it: seven days, in seconds.
pub const DEFAULT_SEASON_TIMER: u64 = 604800;

/// Capacity of a season leaderboard.
pub const DEFAULT_LEADERBOARD_MAX_GAME_COUNT: u8 = 10;

/// Admission score threshold of a fresh season leaderboard.
pub const DEFAULT_LEADERBOARD_MIN_SCORE: u32 = 0;

/// Admission tile threshold of a fresh season leaderboard.
pub const DEFAULT_LEADERBOARD_MIN_TILE: u16 = 0;

/// Capacity of the global winner board.
pub const DEFAULT_MAX_WINNER_COUNT: u8 = 10;

/// Process-wide settings and the current season's id and end.
#[derive(Clone, Copy, Debug)]
pub struct ConfigAccount {
    pub is_initialized: bool,
    pub maintainer: Key,
    pub current_season_id: u8,
    pub current_season_ended_at: u64,
    pub season_duration: u64,
}

/// One season: its id, time window, games played and leaderboard.
#[derive(Clone, Debug)]
pub struct SeasonAccount {
    pub season_id: u8,
    pub started_at: u64,
    pub ended_at: u64,
    pub total_game_played: u64,
    pub leaderboard: LeaderBoard,
}

/// `now` lies in the season's window, ends included.
pub open spec fn season_active(season: SeasonAccount, now: u64) -> bool {
    season.started_at <= now <= season.ended_at
}

/// Fails with `SeasonEnded` unless `now` lies in the season's window.
pub fn check_season_ended(season_account: &SeasonAccount, now: u64) -> (r: Result<(), FomoLoveErrorCode>)
    ensures
        r == (if season_active(*season_account, now) {
            Ok(())
        } else {
            Err(FomoLoveErrorCode::SeasonEnded)
        }),
{
    if season_account.started_at <= now && season_account.ended_at >= now {
        Ok(())
    } else {
        Err(FomoLoveErrorCode::SeasonEnded)
    }
}

/// One-time setup: the configuration with `maintainer` and no season yet
/// (the current season counts as ended at `now`), an empty winner board and
/// both teams without players. Fails with `AlreadyInitialized`, changing
/// nothing, if the configuration is already set up.
pub fn initialize(
    config_account: &mut ConfigAccount,
    winner_account: &mut WinnerAccount,
    meme_team_account: &mut TeamAccount,
    chain_team_account: &mut TeamAccount,
    maintainer: Key,
    chain_team_base_url: String,
    meme_team_base_url: String,
    now: u64,
) -> (r: Result<(), FomoLoveErrorCode>)
    ensures
        old(config_account).is_initialized ==> r == Err::<(), _>(FomoLoveErrorCode::AlreadyInitialized)
            && *final(config_account) == *old(config_account) && *final(winner_account) == *old(
            winner_account) && *final(meme_team_account) == *old(meme_team_account)
            && *final(chain_team_account) == *old(chain_team_account),
        !old(config_account).is_initialized ==> {
            &&& r == Ok::<(), FomoLoveErrorCode>(())
            &&& *final(config_account) == (ConfigAccount {
                is_initialized: true,
                maintainer,
                current_season_id: 0,
                current_season_ended_at: now,
                season_duration: DEFAULT_SEASON_TIMER,
            })
            &&& final(winner_account).max_winner_count == DEFAULT_MAX_WINNER_COUNT
            &&& final(winner_account).leaderboard@.len() == 0
            &&& final(meme_team_account).team_type == TeamType::MemeTeam
            &&& final(meme_team_account).base_url@ == meme_team_base_url@
            &&& final(meme_team_account).num_players == 0
            &&& final(chain_team_account).team_type == TeamType::ChainTeam
            &&& final(chain_team_account).base_url@ == chain_team_base_url@
            &&& final(chain_team_account).num_players == 0
        },
{
    if config_account.is_initialized {
        return Err(FomoLoveErrorCode::AlreadyInitialized);
    }
    config_account.maintainer = maintainer;
    config_account.current_season_id = 0;
    config_account.season_duration = DEFAULT_SEASON_TIMER;
    config_account.current_season_ended_at = now;
    config_account.is_initialized = true;

    *winner_account = WinnerAccount::new(DEFAULT_MAX_WINNER_COUNT);

    meme_team_account.base_url = meme_team_base_url;
    meme_team_account.team_type = TeamType::MemeTeam;
    meme_team_account.num_players = 0;

    chain_team_account.team_type = TeamType::ChainTeam;
    chain_team_account.base_url = chain_team_base_url;
    chain_team_account.num_players = 0;
    Ok(())
}

/// Sets the duration of seasons started from now on; the current season
/// keeps its end. Fails with `Unauthorized` if `maintainer` is not the
/// configured one.
pub fn update_season_duration(
    config_account: &mut ConfigAccount,
    maintainer: &Key,
    new_season_duration: u64,
) -> (r: Result<(), FomoLoveErrorCode>)
    ensures
        old(config_account).maintainer@ != maintainer@ ==> r == Err::<(), _>(
            FomoLoveErrorCode::Unauthorized,
        ) && *final(config_account) == *old(config_account),
        old(config_account).maintainer@ == maintainer@ ==> r == Ok::<(), FomoLoveErrorCode>(())
            && *final(config_account) == (ConfigAccount {
            season_duration: new_season_duration,
            ..*old(config_account)
        }),
{
    if !config_account.maintainer.same_as(maintainer) {
        return Err(FomoLoveErrorCode::Unauthorized);
    }
    config_account.season_duration = new_season_duration;
    Ok(())
}

/// Starts the next season at `start_time`, for the configured duration, with
/// an empty leaderboard. Fails with `Unauthorized` if `maintainer` is not
/// the configured one, then with `SeasonNotEnded` unless both `start_time`
/// and `now` are at or after the current season's end.
pub fn start_season(config_account: &mut ConfigAccount, maintainer: &Key, start_time: u64, now: u64) -> (r:
    Result<SeasonAccount, FomoLoveErrorCode>)
    requires
        old(config_account).maintainer@ == maintainer@ && start_time
            >= old(config_account).current_season_ended_at && now
            >= old(config_account).current_season_ended_at ==> start_time + old(
            config_account).season_duration <= u64::MAX && old(config_account).current_season_id
            < u8::MAX,
    ensures
        ({
            let c = *old(config_account);
            if c.maintainer@ != maintainer@ {
                r == Err::<SeasonAccount, _>(FomoLoveErrorCode::Unauthorized) && *final(config_account) == c
            } else if !(start_time >= c.current_season_ended_at && now >= c.current_season_ended_at) {
                r == Err::<SeasonAccount, _>(FomoLoveErrorCode::SeasonNotEnded) && *final(config_account) == c
            } else {
                &&& r is Ok
                &&& r->Ok_0.season_id == c.current_season_id + 1
                &&& r->Ok_0.started_at == start_time
                &&& r->Ok_0.ended_at == start_time + c.season_duration
                &&& r->Ok_0.total_game_played == 0
                &&& r->Ok_0.leaderboard.min_score == DEFAULT_LEADERBOARD_MIN_SCORE
                &&& r->Ok_0.leaderboard.min_tile == DEFAULT_LEADERBOARD_MIN_TILE
                &&& r->Ok_0.leaderboard.max_game_count == DEFAULT_LEADERBOARD_MAX_GAME_COUNT
                &&& r->Ok_0.leaderboard.top_games@.len() == 0
                &&& games_sorted(r->Ok_0.leaderboard.top_games@)
                &&& *final(config_account) == (ConfigAccount {
                    current_season_id: (c.current_season_id + 1) as u8,
                    current_season_ended_at: (start_time + c.season_duration) as u64,
                    ..c
                })
            }
        }),
{
    if !config_account.maintainer.same_as(maintainer) {
        return Err(FomoLoveErrorCode::Unauthorized);
    }
    if !(start_time >= config_account.current_season_ended_at && now
        >= config_account.current_season_ended_at) {
        return Err(FomoLoveErrorCode::SeasonNotEnded);
    }
    let season_id = config_account.current_season_id + 1;
    let ended_at = start_time + config_account.season_duration;
    let season = SeasonAccount {
        season_id,
        started_at: start_time,
        ended_at,
        total_game_played: 0,
        leaderboard: LeaderBoard::new(
            DEFAULT_LEADERBOARD_MIN_SCORE,
            DEFAULT_LEADERBOARD_MIN_TILE,
            DEFAULT_LEADERBOARD_MAX_GAME_COUNT,
        ),
    };
    config_account.current_season_id = season_id;
    config_account.current_season_ended_at = ended_at;
    Ok(season)
}

} // verus!
