//! The global winner board: at most one entry per player, across seasons.
use vstd::prelude::*;

use crate::key::Key;
use crate::leaderboard::ranks_at_least;
use crate::team::TeamType;

verus! {

/// A game that reached the milestone tile.
#[derive(Clone, Copy, Debug)]
pub struct WinnerTopGame {
    pub user: Key,
    pub team: TeamType,
    pub season_id: u8,
    pub score: u32,
    pub top_tile: u16,
}

/// The winners, at most `max_winner_count` of them once trimmed.
#[derive(Clone, Debug)]
pub struct WinnerAccount {
    pub max_winner_count: u8,
    pub leaderboard: Vec<WinnerTopGame>,
}

/// Winner `a` ranks at or above winner `b`.
pub open spec fn winner_ranks_at_least(a: WinnerTopGame, b: WinnerTopGame) -> bool {
    ranks_at_least(a.score, a.top_tile, b.score, b.top_tile)
}

/// `a` strictly beats `b`: higher score, or equal score and higher tile.
pub open spec fn strictly_better(a: WinnerTopGame, b: WinnerTopGame) -> bool {
    a.score > b.score || (a.score == b.score && a.top_tile > b.top_tile)
}

/// No two entries belong to the same player.
pub open spec fn users_unique(s: Seq<WinnerTopGame>) -> bool {
    forall|i: int, j: int| 0 <= i < j < s.len() ==> s[i].user@ != s[j].user@
}

/// Index of the first entry of player `u`, or `s.len()` if there is none.
pub open spec fn index_of_user(s: Seq<WinnerTopGame>, u: Seq<u8>) -> int
    decreases s.len(),
{
    if s.len() == 0 {
        0
    } else if s[0].user@ == u {
        0
    } else {
        1 + index_of_user(s.drop_first(), u)
    }
}

/// The entries after recording `e`: its player's entry is replaced if `e`
/// strictly beats it, and `e` is appended if its player has none.
pub open spec fn with_milestone(s: Seq<WinnerTopGame>, e: WinnerTopGame) -> Seq<WinnerTopGame> {
    let i = index_of_user(s, e.user@);
    if i < s.len() {
        if strictly_better(e, s[i]) {
            s.update(i, e)
        } else {
            s
        }
    } else {
        s.push(e)
    }
}

/// Length of the leading run of entries that rank at or above `e`.
pub open spec fn winners_lead(s: Seq<WinnerTopGame>, e: WinnerTopGame) -> int
    decreases s.len(),
{
    if s.len() > 0 && winner_ranks_at_least(s[0], e) {
        1 + winners_lead(s.drop_first(), e)
    } else {
        0
    }
}

/// Stable sort of `s`, best first: each entry in turn is put after the
/// entries already placed that rank at or above it.
pub open spec fn ranked(s: Seq<WinnerTopGame>) -> Seq<WinnerTopGame>
    decreases s.len(),
{
    if s.len() == 0 {
        s
    } else {
        let t = ranked(s.drop_last());
        t.insert(winners_lead(t, s.last()), s.last())
    }
}

/// The entries after recording `e` on a board of capacity `max`: when more
/// than `max` entries remain, they are sorted and only the best `max` kept.
pub open spec fn after_milestone(s: Seq<WinnerTopGame>, e: WinnerTopGame, max: int) -> Seq<
    WinnerTopGame,
> {
    let t = with_milestone(s, e);
    if t.len() > max {
        ranked(t).subrange(0, max)
    } else {
        t
    }
}

proof fn lemma_index_of_user(s: Seq<WinnerTopGame>, u: Seq<u8>)
    ensures
        0 <= index_of_user(s, u) <= s.len(),
        index_of_user(s, u) < s.len() ==> s[index_of_user(s, u)].user@ == u,
        forall|j: int| 0 <= j < index_of_user(s, u) ==> s[j].user@ != u,
    decreases s.len(),
{
    if s.len() > 0 && s[0].user@ != u {
        lemma_index_of_user(s.drop_first(), u);
        assert forall|j: int| 0 < j < index_of_user(s, u) implies s[j].user@ != u by {
            assert(s[j] == s.drop_first()[j - 1]);
        }
    }
}

proof fn lemma_winners_lead_bounded(s: Seq<WinnerTopGame>, e: WinnerTopGame)
    ensures
        0 <= winners_lead(s, e) <= s.len(),
        forall|i: int| 0 <= i < winners_lead(s, e) ==> winner_ranks_at_least(s[i], e),
        winners_lead(s, e) < s.len() ==> !winner_ranks_at_least(s[winners_lead(s, e)], e),
    decreases s.len(),
{
    if s.len() > 0 && winner_ranks_at_least(s[0], e) {
        lemma_winners_lead_bounded(s.drop_first(), e);
        assert forall|i: int| 0 < i < winners_lead(s, e) implies winner_ranks_at_least(s[i], e) by {
            assert(s[i] == s.drop_first()[i - 1]);
        }
    }
}

/// Each entry ranks at or above every later one.
pub open spec fn winners_sorted(s: Seq<WinnerTopGame>) -> bool {
    forall|i: int, j: int| 0 <= i < j < s.len() ==> winner_ranks_at_least(s[i], s[j])
}

/// Sorting puts the board best first.
pub proof fn lemma_ranked_sorted(s: Seq<WinnerTopGame>)
    ensures
        winners_sorted(ranked(s)),
    decreases s.len(),
{
    if s.len() > 0 {
        let t = ranked(s.drop_last());
        let e = s.last();
        lemma_ranked_sorted(s.drop_last());
        lemma_winners_lead_bounded(t, e);
        let p = winners_lead(t, e);
        let r = ranked(s);
        assert forall|i: int, j: int| 0 <= i < j < r.len() implies winner_ranks_at_least(r[i], r[j]) by {
            if i < p && j > p {
                assert(winner_ranks_at_least(t[i], e));
            }
            if i == p && j > p {
                assert(!winner_ranks_at_least(t[p], e));
                assert(winner_ranks_at_least(t[p], t[j - 1]) || j - 1 == p);
            }
        }
    }
}

/// Sorting keeps the entries: it has the same length and holds only entries of `s`.
proof fn lemma_ranked_keeps(s: Seq<WinnerTopGame>)
    ensures
        ranked(s).len() == s.len(),
        forall|i: int| 0 <= i < ranked(s).len() ==> s.contains(#[trigger] ranked(s)[i]),
    decreases s.len(),
{
    if s.len() > 0 {
        let t = ranked(s.drop_last());
        lemma_ranked_keeps(s.drop_last());
        lemma_winners_lead_bounded(t, s.last());
        let p = winners_lead(t, s.last());
        assert forall|i: int| 0 <= i < ranked(s).len() implies s.contains(#[trigger] ranked(s)[i]) by {
            if i < p {
                assert(ranked(s)[i] == t[i]);
                let k = choose|k: int| 0 <= k < s.drop_last().len() && s.drop_last()[k] == t[i];
                assert(s[k] == t[i]);
            } else if i > p {
                assert(ranked(s)[i] == t[i - 1]);
                let k = choose|k: int| 0 <= k < s.drop_last().len() && s.drop_last()[k] == t[i - 1];
                assert(s[k] == t[i - 1]);
            } else {
                assert(s[s.len() - 1] == s.last());
            }
        }
    }
}

/// Sorting a board with one entry per player keeps one entry per player.
pub proof fn lemma_ranked_users_unique(s: Seq<WinnerTopGame>)
    requires
        users_unique(s),
    ensures
        users_unique(ranked(s)),
    decreases s.len(),
{
    if s.len() > 0 {
        let d = s.drop_last();
        let t = ranked(d);
        let e = s.last();
        assert(users_unique(d));
        lemma_ranked_users_unique(d);
        lemma_ranked_keeps(d);
        lemma_winners_lead_bounded(t, e);
        assert forall|i: int| 0 <= i < t.len() implies t[i].user@ != e.user@ by {
            assert(d.contains(t[i]));
            let k = choose|k: int| 0 <= k < d.len() && d[k] == t[i];
            assert(s[k] == d[k]);
            assert(s[s.len() - 1] == e);
        }
    }
}

/// A board of capacity `max` keeps one entry per player when a milestone is recorded.
pub proof fn lemma_milestone_users_unique(s: Seq<WinnerTopGame>, e: WinnerTopGame, max: int)
    requires
        users_unique(s),
        0 <= max,
    ensures
        users_unique(after_milestone(s, e, max)),
{
    lemma_index_of_user(s, e.user@);
    let t = with_milestone(s, e);
    assert(users_unique(t));
    if t.len() > max {
        lemma_ranked_users_unique(t);
        lemma_ranked_keeps(t);
    }
}

fn find_user(s: &Vec<WinnerTopGame>, u: &Key) -> (i: usize)
    ensures
        i as int == index_of_user(s@, u@),
{
    let mut i: usize = 0;
    assert(s@.subrange(0, s@.len() as int) =~= s@);
    while i < s.len()
        invariant
            i <= s@.len(),
            index_of_user(s@, u@) == i + index_of_user(s@.subrange(i as int, s@.len() as int), u@),
        decreases s.len() - i,
    {
        let ghost rest = s@.subrange(i as int, s@.len() as int);
        if s[i].user.same_as(u) {
            return i;
        }
        assert(rest.drop_first() =~= s@.subrange(i + 1, s@.len() as int));
        i += 1;
    }
    i
}

fn winners_lead_exec(s: &Vec<WinnerTopGame>, e: &WinnerTopGame) -> (p: usize)
    ensures
        p as int == winners_lead(s@, *e),
{
    let mut i: usize = 0;
    assert(s@.subrange(0, s@.len() as int) =~= s@);
    while i < s.len()
        invariant
            i <= s@.len(),
            winners_lead(s@, *e) == i + winners_lead(s@.subrange(i as int, s@.len() as int), *e),
        decreases s.len() - i,
    {
        let ghost rest = s@.subrange(i as int, s@.len() as int);
        if !(s[i].score > e.score || (s[i].score == e.score && s[i].top_tile >= e.top_tile)) {
            return i;
        }
        assert(rest.drop_first() =~= s@.subrange(i + 1, s@.len() as int));
        i += 1;
    }
    i
}

/// The entries sorted best first, equal ones kept in their order.
pub fn rank_winners(s: &Vec<WinnerTopGame>) -> (r: Vec<WinnerTopGame>)
    ensures
        r@ == ranked(s@),
{
    let mut out: Vec<WinnerTopGame> = Vec::new();
    let mut i: usize = 0;
    assert(s@.subrange(0, 0) =~= Seq::<WinnerTopGame>::empty());
    while i < s.len()
        invariant
            i <= s@.len(),
            out@ == ranked(s@.subrange(0, i as int)),
        decreases s.len() - i,
    {
        let e = s[i];
        proof {
            lemma_ranked_keeps(s@.subrange(0, i as int));
            lemma_winners_lead_bounded(out@, e);
            assert(s@.subrange(0, i + 1).drop_last() =~= s@.subrange(0, i as int));
        }
        let p = winners_lead_exec(&out, &e);
        out.insert(p, e);
        i += 1;
    }
    assert(s@.subrange(0, s@.len() as int) =~= s@);
    out
}

impl WinnerAccount {
    /// An empty board of the given capacity.
    pub fn new(max_winner_count: u8) -> (r: WinnerAccount)
        ensures
            r.max_winner_count == max_winner_count,
            r.leaderboard@.len() == 0,
    {
        WinnerAccount { max_winner_count, leaderboard: Vec::new() }
    }

    /// Records a game that reached the milestone tile: its player's entry is
    /// replaced only by a strictly better game, or the game is appended if
    /// the player has none. If the board then exceeds its capacity, it is
    /// sorted best first and cut to exactly its capacity.
    pub fn record_milestone(&mut self, entry: WinnerTopGame)
        requires
            old(self).leaderboard@.len() < usize::MAX,
        ensures
            final(self).leaderboard@ == after_milestone(
                old(self).leaderboard@,
                entry,
                old(self).max_winner_count as int,
            ),
            with_milestone(old(self).leaderboard@, entry).len() > old(self).max_winner_count
                ==> final(self).leaderboard@.len() == old(self).max_winner_count,
            with_milestone(old(self).leaderboard@, entry).len() > old(self).max_winner_count
                ==> winners_sorted(final(self).leaderboard@),
            users_unique(old(self).leaderboard@) ==> users_unique(final(self).leaderboard@),
            final(self).max_winner_count == old(self).max_winner_count,
    {
        let ghost s0 = self.leaderboard@;
        proof {
            lemma_index_of_user(s0, entry.user@);
            if users_unique(s0) {
                lemma_milestone_users_unique(s0, entry, self.max_winner_count as int);
            }
        }
        let i = find_user(&self.leaderboard, &entry.user);
        if i < self.leaderboard.len() {
            let current = self.leaderboard[i];
            if entry.score > current.score || (entry.score == current.score && entry.top_tile
                > current.top_tile) {
                self.leaderboard.set(i, entry);
            }
        } else {
            self.leaderboard.push(entry);
        }
        let max = self.max_winner_count as usize;
        if self.leaderboard.len() > max {
            let mut sorted = rank_winners(&self.leaderboard);
            proof {
                lemma_ranked_keeps(self.leaderboard@);
                lemma_ranked_sorted(self.leaderboard@);
            }
            sorted.truncate(max);
            self.leaderboard = sorted;
        }
    }
}

} // verus!
