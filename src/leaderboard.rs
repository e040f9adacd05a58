//! The season leaderboard: a bounded list of the best games, best first.
use vstd::prelude::*;

use crate::key::Key;
use crate::team::TeamType;

verus! {

/// Snapshot of a submitted game.
#[derive(Clone, Copy, Debug)]
pub struct TopGame {
    pub game: Key,
    pub player: Key,
    pub team: TeamType,
    pub score: u32,
    pub top_tile: u16,
}

/// Ranked games of a season with the admission thresholds, which hold once
/// the list is full.
#[derive(Clone, Debug)]
pub struct LeaderBoard {
    pub min_tile: u16,
    pub max_game_count: u8,
    pub min_score: u32,
    pub top_games: Vec<TopGame>,
}

/// `(score, tile)` ranks at or above `(other_score, other_tile)`: higher score
/// first, then higher tile.
pub open spec fn ranks_at_least(score: u32, tile: u16, other_score: u32, other_tile: u16) -> bool {
    score > other_score || (score == other_score && tile >= other_tile)
}

/// Game `a` ranks at or above game `b`.
pub open spec fn game_ranks_at_least(a: TopGame, b: TopGame) -> bool {
    ranks_at_least(a.score, a.top_tile, b.score, b.top_tile)
}

/// Each game ranks at or above every later one.
pub open spec fn games_sorted(s: Seq<TopGame>) -> bool {
    forall|i: int, j: int| 0 <= i < j < s.len() ==> game_ranks_at_least(s[i], s[j])
}

/// Length of the leading run of games that rank at or above `e`: where a
/// stable sort puts `e` when it comes after them.
pub open spec fn games_lead(s: Seq<TopGame>, e: TopGame) -> int
    decreases s.len(),
{
    if s.len() > 0 && game_ranks_at_least(s[0], e) {
        1 + games_lead(s.drop_first(), e)
    } else {
        0
    }
}

/// Stable sort of `s`, best first: each game in turn is put after the games
/// already placed that rank at or above it.
pub open spec fn ranked_games(s: Seq<TopGame>) -> Seq<TopGame>
    decreases s.len(),
{
    if s.len() == 0 {
        s
    } else {
        let t = ranked_games(s.drop_last());
        t.insert(games_lead(t, s.last()), s.last())
    }
}

/// Games after appending `e` to `s`, sorting them best first and evicting
/// the last one if more than `max` remain.
pub open spec fn games_after_insert(s: Seq<TopGame>, e: TopGame, max: int) -> Seq<TopGame> {
    let t = ranked_games(s.push(e));
    if t.len() > max {
        t.drop_last()
    } else {
        t
    }
}

/// `after` is `before` with `e` appended, sorted best first, and at most one
/// game evicted so that no more than `max` remain; once exactly `max` (and at least one) remain,
/// the thresholds are those of the last game, else they are kept.
pub open spec fn inserted(before: LeaderBoard, after: LeaderBoard, e: TopGame, max: int) -> bool {
    let s = after.top_games@;
    &&& s == games_after_insert(before.top_games@, e, max)
    &&& after.max_game_count == before.max_game_count
    &&& if s.len() == max && s.len() > 0 {
        after.min_score == s.last().score && after.min_tile == s.last().top_tile
    } else {
        after.min_score == before.min_score && after.min_tile == before.min_tile
    }
}

proof fn lemma_games_lead(s: Seq<TopGame>, e: TopGame)
    ensures
        0 <= games_lead(s, e) <= s.len(),
        forall|i: int| 0 <= i < games_lead(s, e) ==> game_ranks_at_least(s[i], e),
        games_lead(s, e) < s.len() ==> !game_ranks_at_least(s[games_lead(s, e)], e),
    decreases s.len(),
{
    if s.len() > 0 && game_ranks_at_least(s[0], e) {
        lemma_games_lead(s.drop_first(), e);
        assert forall|i: int| 0 < i < games_lead(s, e) implies game_ranks_at_least(s[i], e) by {
            assert(s[i] == s.drop_first()[i - 1]);
        }
    }
}

/// Position at which `e` enters `s`: after the leading games that rank at or above it.
fn games_lead_exec(s: &Vec<TopGame>, e: &TopGame) -> (p: usize)
    ensures
        p as int == games_lead(s@, *e),
{
    let mut i: usize = 0;
    assert(s@.subrange(0, s@.len() as int) =~= s@);
    while i < s.len()
        invariant
            i <= s@.len(),
            games_lead(s@, *e) == i + games_lead(s@.subrange(i as int, s@.len() as int), *e),
        decreases s.len() - i,
    {
        let ghost rest = s@.subrange(i as int, s@.len() as int);
        if !(s[i].score > e.score || (s[i].score == e.score && s[i].top_tile >= e.top_tile)) {
            return i;
        }
        assert(rest.drop_first() =~= s@.subrange(i + 1, s@.len() as int));
        i += 1;
    }
    i
}

proof fn lemma_ranked_games_len(s: Seq<TopGame>)
    ensures
        ranked_games(s).len() == s.len(),
    decreases s.len(),
{
    if s.len() > 0 {
        lemma_ranked_games_len(s.drop_last());
        lemma_games_lead(ranked_games(s.drop_last()), s.last());
    }
}

/// Sorting puts the games best first.
pub proof fn lemma_ranked_games_sorted(s: Seq<TopGame>)
    ensures
        games_sorted(ranked_games(s)),
    decreases s.len(),
{
    if s.len() > 0 {
        let t = ranked_games(s.drop_last());
        let e = s.last();
        lemma_ranked_games_sorted(s.drop_last());
        lemma_games_lead(t, e);
        let p = games_lead(t, e);
        let r = ranked_games(s);
        assert forall|i: int, j: int| 0 <= i < j < r.len() implies game_ranks_at_least(r[i], r[j]) by {
            if i < p && j > p {
                assert(game_ranks_at_least(t[i], e));
            }
            if i == p && j > p {
                assert(!game_ranks_at_least(t[p], e));
                assert(game_ranks_at_least(t[p], t[j - 1]) || j - 1 == p);
            }
        }
    }
}

/// The games sorted best first, equal ones kept in their order.
pub fn rank_games(s: &Vec<TopGame>) -> (r: Vec<TopGame>)
    ensures
        r@ == ranked_games(s@),
{
    let mut out: Vec<TopGame> = Vec::new();
    let mut i: usize = 0;
    assert(s@.subrange(0, 0) =~= Seq::<TopGame>::empty());
    while i < s.len()
        invariant
            i <= s@.len(),
            out@ == ranked_games(s@.subrange(0, i as int)),
        decreases s.len() - i,
    {
        let e = s[i];
        proof {
            lemma_ranked_games_len(s@.subrange(0, i as int));
            assert(s@.subrange(0, i + 1).drop_last() =~= s@.subrange(0, i as int));
        }
        let p = games_lead_exec(&out, &e);
        proof {
            lemma_games_lead(out@, e);
        }
        out.insert(p, e);
        i += 1;
    }
    assert(s@.subrange(0, s@.len() as int) =~= s@);
    out
}

/// Appends a game and sorts the list best first, equal games keeping their
/// order; if the list then holds more than `max_game_count` games, only the
/// last one is evicted. When the list holds exactly `max_game_count` games,
/// the thresholds become those of its last.
pub fn update_leaderboard(leaderboard: &mut LeaderBoard, top_game: TopGame, max_game_count: usize)
    requires
        old(leaderboard).top_games@.len() < usize::MAX,
    ensures
        inserted(*old(leaderboard), *final(leaderboard), top_game, max_game_count as int),
        games_sorted(final(leaderboard).top_games@),
        final(leaderboard).top_games@.len() as int == if old(leaderboard).top_games@.len() + 1
            > max_game_count {
            old(leaderboard).top_games@.len() as int
        } else {
            old(leaderboard).top_games@.len() + 1int
        },
{
    leaderboard.top_games.push(top_game);
    let sorted = rank_games(&leaderboard.top_games);
    proof {
        lemma_ranked_games_len(leaderboard.top_games@);
        lemma_ranked_games_sorted(leaderboard.top_games@);
    }
    leaderboard.top_games = sorted;
    if leaderboard.top_games.len() > max_game_count {
        leaderboard.top_games.pop();
    }
    let n = leaderboard.top_games.len();
    if n == max_game_count && n > 0 {
        leaderboard.min_score = leaderboard.top_games[n - 1].score;
        leaderboard.min_tile = leaderboard.top_games[n - 1].top_tile;
    }
}

impl LeaderBoard {
    /// An empty leaderboard with the given thresholds and capacity.
    pub fn new(min_score: u32, min_tile: u16, max_game_count: u8) -> (r: LeaderBoard)
        ensures
            r.min_score == min_score,
            r.min_tile == min_tile,
            r.max_game_count == max_game_count,
            r.top_games@.len() == 0,
            games_sorted(r.top_games@),
    {
        LeaderBoard { min_tile, max_game_count, min_score, top_games: Vec::new() }
    }

    /// The fast admission gate: the score exceeds the threshold and the top
    /// tile meets it.
    pub fn accepts(&self, score: u32, top_tile: u16) -> (r: bool)
        ensures
            r == (score > self.min_score && top_tile >= self.min_tile),
    {
        score > self.min_score && top_tile >= self.min_tile
    }
}

} // verus!
