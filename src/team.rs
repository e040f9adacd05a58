//! Teams and players' team choice.
use vstd::prelude::*;

use crate::error::FomoLoveErrorCode;

verus! {

/// A player's team; `NoTeam` until the player chooses.
#[derive(Clone, Copy, Debug, PartialEq, Eq, Structural)]
pub enum TeamType {
    NoTeam,
    MemeTeam,
    ChainTeam,
}

/// One team: its kind, the base URL of its assets and its number of players.
#[derive(Clone, Debug)]
pub struct TeamAccount {
    pub team_type: TeamType,
    pub base_url: String,
    pub num_players: u32,
}

/// A player's account: the team chosen, for good.
#[derive(Clone, Copy, Debug)]
pub struct UserAccount {
    pub team: TeamType,
}

/// Records the player's one-time team choice and counts the player in that
/// team. Fails with `UserAlreadyOnTeam` if the player already has a team,
/// then with `InvalidTeam` if `team_type` is `NoTeam`; a failure changes nothing.
pub fn choose_team(
    team_meme_account: &mut TeamAccount,
    team_chain_account: &mut TeamAccount,
    user_account: &mut UserAccount,
    team_type: TeamType,
) -> (r: Result<(), FomoLoveErrorCode>)
    requires
        old(user_account).team == TeamType::NoTeam && team_type == TeamType::MemeTeam
            ==> old(team_meme_account).num_players < u32::MAX,
        old(user_account).team == TeamType::NoTeam && team_type == TeamType::ChainTeam
            ==> old(team_chain_account).num_players < u32::MAX,
    ensures
        old(user_account).team != TeamType::NoTeam ==> r == Err::<(), _>(
            FomoLoveErrorCode::UserAlreadyOnTeam,
        ),
        old(user_account).team == TeamType::NoTeam && team_type == TeamType::NoTeam ==> r == Err::<
            (),
            _,
        >(FomoLoveErrorCode::InvalidTeam),
        r is Err ==> *final(team_meme_account) == *old(team_meme_account)
            && *final(team_chain_account) == *old(team_chain_account)
            && *final(user_account) == *old(user_account),
        old(user_account).team == TeamType::NoTeam && team_type != TeamType::NoTeam ==> {
            &&& r == Ok::<(), FomoLoveErrorCode>(())
            &&& final(user_account).team == team_type
            &&& final(team_meme_account).num_players == old(team_meme_account).num_players + if team_type
                == TeamType::MemeTeam {
                1int
            } else {
                0int
            }
            &&& final(team_chain_account).num_players == old(team_chain_account).num_players + if team_type
                == TeamType::ChainTeam {
                1int
            } else {
                0int
            }
            &&& final(team_meme_account).team_type == old(team_meme_account).team_type
            &&& final(team_meme_account).base_url == old(team_meme_account).base_url
            &&& final(team_chain_account).team_type == old(team_chain_account).team_type
            &&& final(team_chain_account).base_url == old(team_chain_account).base_url
        },
{
    match user_account.team {
        TeamType::NoTeam => {},
        _ => return Err(FomoLoveErrorCode::UserAlreadyOnTeam),
    }
    match team_type {
        TeamType::MemeTeam => {
            team_meme_account.num_players += 1;
        },
        TeamType::ChainTeam => {
            team_chain_account.num_players += 1;
        },
        TeamType::NoTeam => return Err(FomoLoveErrorCode::InvalidTeam),
    }
    user_account.team = team_type;
    Ok(())
}

} // verus!
