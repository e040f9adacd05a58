//! Errors of the game's operations.
use vstd::prelude::*;

verus! {

/// Why an operation was rejected.
#[derive(Clone, Copy, Debug, PartialEq, Eq, Structural)]
pub enum FomoLoveErrorCode {
    /// The caller is not the maintainer.
    Unauthorized,
    /// The configuration was already set up.
    AlreadyInitialized,
    /// The player's team does not name a real team.
    InvalidTeamType,
    /// The season's time window does not hold the current time.
    SeasonEnded,
    /// The player has already chosen a team.
    UserAlreadyOnTeam,
    /// The move changed no cell.
    GameNotChange,
    /// No move is left on the board.
    GameOver,
    /// The game's top tile is below the leaderboard's threshold.
    LowTile,
    /// The game's score does not exceed the leaderboard's threshold.
    LowScore,
    /// The previous season has not ended.
    SeasonNotEnded,
    /// The player has not chosen a team.
    NotChooseTeam,
    /// The player's team differs from the team account given.
    TeamTypeMismatch,
    /// The team chosen is `NoTeam`.
    InvalidTeam,
}

} // verus!
