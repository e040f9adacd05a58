use fomolove_sonic::error::FomoLoveErrorCode;
use fomolove_sonic::key::Key;
use fomolove_sonic::season::{
    check_season_ended, initialize, start_season, update_season_duration, ConfigAccount,
    SeasonAccount, DEFAULT_LEADERBOARD_MAX_GAME_COUNT, DEFAULT_MAX_WINNER_COUNT,
    DEFAULT_SEASON_TIMER,
};
use fomolove_sonic::leaderboard::LeaderBoard;
use fomolove_sonic::team::{choose_team, TeamAccount, TeamType, UserAccount};
use fomolove_sonic::winner::WinnerAccount;

fn key(b: u8) -> Key {
    Key::new([b; 32])
}

fn config(ended_at: u64) -> ConfigAccount {
    ConfigAccount {
        is_initialized: true,
        maintainer: key(1),
        current_season_id: 3,
        current_season_ended_at: ended_at,
        season_duration: 100,
    }
}

fn team(t: TeamType) -> TeamAccount {
    TeamAccount { team_type: t, base_url: String::from("https://example.org/"), num_players: 0 }
}

#[test]
fn initialize_sets_everything_once() {
    let mut c = ConfigAccount {
        is_initialized: false,
        maintainer: key(0),
        current_season_id: 9,
        current_season_ended_at: 0,
        season_duration: 0,
    };
    let mut w = WinnerAccount::new(0);
    let mut meme = team(TeamType::NoTeam);
    let mut chain = team(TeamType::NoTeam);
    meme.num_players = 4;
    let r = initialize(&mut c, &mut w, &mut meme, &mut chain, key(1), "chain/".to_string(), "meme/".to_string(), 500);
    assert_eq!(r, Ok(()));
    assert!(c.is_initialized);
    assert_eq!(c.maintainer, key(1));
    assert_eq!(c.current_season_id, 0);
    assert_eq!(c.current_season_ended_at, 500);
    assert_eq!(c.season_duration, DEFAULT_SEASON_TIMER);
    assert_eq!(w.max_winner_count, DEFAULT_MAX_WINNER_COUNT);
    assert_eq!(meme.team_type, TeamType::MemeTeam);
    assert_eq!(meme.base_url, "meme/");
    assert_eq!(meme.num_players, 0);
    assert_eq!(chain.team_type, TeamType::ChainTeam);
    assert_eq!(chain.base_url, "chain/");
    let again = initialize(&mut c, &mut w, &mut meme, &mut chain, key(2), String::new(), String::new(), 900);
    assert_eq!(again, Err(FomoLoveErrorCode::AlreadyInitialized));
    assert_eq!(c.maintainer, key(1));
    assert_eq!(c.current_season_ended_at, 500);
}

#[test]
fn start_season_before_end_fails() {
    let mut c = config(1000);
    let r = start_season(&mut c, &key(1), 999, 2000);
    assert_eq!(r.unwrap_err(), FomoLoveErrorCode::SeasonNotEnded);
    let r = start_season(&mut c, &key(1), 1500, 999);
    assert_eq!(r.unwrap_err(), FomoLoveErrorCode::SeasonNotEnded);
    assert_eq!(c.current_season_id, 3);
    assert_eq!(c.current_season_ended_at, 1000);
}

#[test]
fn start_season_by_stranger_fails() {
    let mut c = config(1000);
    let r = start_season(&mut c, &key(2), 1000, 1000);
    assert_eq!(r.unwrap_err(), FomoLoveErrorCode::Unauthorized);
}

#[test]
fn start_season_opens_next_window() {
    let mut c = config(1000);
    let s = start_season(&mut c, &key(1), 1200, 1100).unwrap();
    assert_eq!(s.season_id, 4);
    assert_eq!(s.started_at, 1200);
    assert_eq!(s.ended_at, 1300);
    assert_eq!(s.leaderboard.top_games.len(), 0);
    assert_eq!(s.leaderboard.max_game_count, DEFAULT_LEADERBOARD_MAX_GAME_COUNT);
    assert_eq!(c.current_season_id, 4);
    assert_eq!(c.current_season_ended_at, 1300);
}

#[test]
fn duration_change_applies_to_later_seasons() {
    let mut c = config(1000);
    let s = start_season(&mut c, &key(1), 1000, 1000).unwrap();
    assert_eq!(update_season_duration(&mut c, &key(1), 50), Ok(()));
    assert_eq!(c.current_season_ended_at, 1100);
    assert_eq!(s.ended_at, 1100);
    let next = start_season(&mut c, &key(1), 1100, 1100).unwrap();
    assert_eq!(next.ended_at, 1150);
    assert_eq!(update_season_duration(&mut c, &key(5), 1), Err(FomoLoveErrorCode::Unauthorized));
    assert_eq!(c.season_duration, 50);
}

#[test]
fn season_window_includes_both_ends() {
    let s = SeasonAccount {
        season_id: 1,
        started_at: 10,
        ended_at: 20,
        total_game_played: 0,
        leaderboard: LeaderBoard::new(0, 0, 3),
    };
    assert_eq!(check_season_ended(&s, 10), Ok(()));
    assert_eq!(check_season_ended(&s, 20), Ok(()));
    assert_eq!(check_season_ended(&s, 9), Err(FomoLoveErrorCode::SeasonEnded));
    assert_eq!(check_season_ended(&s, 21), Err(FomoLoveErrorCode::SeasonEnded));
}

#[test]
fn team_choice_is_once_and_counted() {
    let mut meme = team(TeamType::MemeTeam);
    let mut chain = team(TeamType::ChainTeam);
    let mut user = UserAccount { team: TeamType::NoTeam };
    assert_eq!(choose_team(&mut meme, &mut chain, &mut user, TeamType::ChainTeam), Ok(()));
    assert_eq!(user.team, TeamType::ChainTeam);
    assert_eq!((meme.num_players, chain.num_players), (0, 1));
    assert_eq!(
        choose_team(&mut meme, &mut chain, &mut user, TeamType::MemeTeam),
        Err(FomoLoveErrorCode::UserAlreadyOnTeam)
    );
    assert_eq!(user.team, TeamType::ChainTeam);
    assert_eq!((meme.num_players, chain.num_players), (0, 1));
}

#[test]
fn choosing_no_team_fails() {
    let mut meme = team(TeamType::MemeTeam);
    let mut chain = team(TeamType::ChainTeam);
    let mut user = UserAccount { team: TeamType::NoTeam };
    assert_eq!(
        choose_team(&mut meme, &mut chain, &mut user, TeamType::NoTeam),
        Err(FomoLoveErrorCode::InvalidTeam)
    );
    assert_eq!(user.team, TeamType::NoTeam);
    assert_eq!(choose_team(&mut meme, &mut chain, &mut user, TeamType::MemeTeam), Ok(()));
    assert_eq!((meme.num_players, chain.num_players), (1, 0));
}
