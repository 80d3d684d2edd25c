//! Leagues: a player's league and score, and the ranking entry.

use vstd::prelude::*;
use crate::outside::now_millis;

verus! {

/// A player's league.
#[derive(Debug, Clone, Copy, PartialEq, Eq, Structural)]
pub struct League {
    /// league score
    pub score: i32,
    /// when the player entered the league, in milliseconds
    pub league_time: i64,
    pub league_id: i8,
}

/// The configured threshold of a league.
#[derive(Debug, Clone, Copy, PartialEq, Eq, Structural)]
pub struct LeagueTemp {
    pub id: i8,
    /// the score at which the league starts
    pub score: i32,
}

/// An entry of the ranking.
pub struct RankInfo {
    pub user_id: u32,
    pub name: String,
    pub rank: i32,
    /// the three characters the player uses most
    pub cters: Vec<u32>,
    pub league: League,
}

/// Whether `t` is the league that the table gives for `score`: the one with
/// the highest threshold not above the score, the first of them where
/// several share it.
pub open spec fn is_league_for(temps: Seq<LeagueTemp>, score: i32, k: int) -> bool {
    &&& 0 <= k < temps.len()
    &&& temps[k].score <= score
    &&& forall|j: int| 0 <= j < temps.len() && #[trigger] temps[j].score <= score ==> temps[j].score <= temps[k].score
    &&& forall|j: int| 0 <= j < k && #[trigger] temps[j].score <= score ==> temps[j].score < temps[k].score
}

/// Whether the table has a league with id `id`.
pub open spec fn has_league(temps: Seq<LeagueTemp>, id: i8) -> bool {
    exists|j: int| 0 <= j < temps.len() && #[trigger] temps[j].id == id
}

/// The league that the table gives for `score`, if any threshold is not above it.
pub fn get_league_by_score(temps: &Vec<LeagueTemp>, score: i32) -> (r: Option<LeagueTemp>)
    ensures
        r is None <==> forall|j: int| 0 <= j < temps@.len() ==> #[trigger] temps@[j].score > score,
        r matches Some(t) ==> exists|k: int| is_league_for(temps@, score, k) && t == temps@[k],
{
    let mut best: Option<usize> = None;
    let mut i: usize = 0;
    while i < temps.len()
        invariant
            i <= temps@.len(),
            best is None <==> forall|j: int| 0 <= j < i ==> #[trigger] temps@[j].score > score,
            best matches Some(b) ==> {
                &&& b < i
                &&& temps@[b as int].score <= score
                &&& forall|j: int| 0 <= j < i && #[trigger] temps@[j].score <= score ==> temps@[j].score <= temps@[b as int].score
                &&& forall|j: int| 0 <= j < b && #[trigger] temps@[j].score <= score ==> temps@[j].score < temps@[b as int].score
            },
        decreases temps.len() - i,
    {
        if temps[i].score <= score {
            match best {
                None => {
                    best = Some(i);
                },
                Some(b) => {
                    if temps[i].score > temps[b].score {
                        best = Some(i);
                    }
                },
            }
        }
        i = i + 1;
    }
    match best {
        Some(b) => Some(temps[b]),
        None => None,
    }
}

/// Whether the table has a league with id `id`.
pub fn has_league_id(temps: &Vec<LeagueTemp>, id: i8) -> (r: bool)
    ensures
        r == has_league(temps@, id),
{
    let mut i: usize = 0;
    while i < temps.len()
        invariant
            i <= temps@.len(),
            forall|j: int| 0 <= j < i ==> #[trigger] temps@[j].id != id,
        decreases temps.len() - i,
    {
        if temps[i].id == id {
            return true;
        }
        i = i + 1;
    }
    false
}

/// `l1` is league `l0` after `score` (which may be negative) was added
/// with the table `temps` at time `now` (see `League::update_score_at`).
pub open spec fn league_updated(l0: League, l1: League, score: i32, temps: Seq<LeagueTemp>, now: i64) -> bool {
    &&& l0.score + score < 0 ==> l1 == (League { score: 0, ..l0 })
    &&& l0.score + score >= 0 ==> {
        let s = (l0.score + score) as i32;
        let id1 = if score < 0 && !has_league(temps, l0.league_id) { 0i8 } else { l0.league_id };
        if forall|j: int| 0 <= j < temps.len() ==> #[trigger] temps[j].score > s {
            l1 == (League { score: s, league_id: id1, ..l0 })
        } else {
            exists|k: int| #[trigger] is_league_for(temps, s, k) && {
                let t = temps[k];
                if s < t.score {
                    l1 == (League { score: t.score, league_id: id1, ..l0 })
                } else if t.id != id1 {
                    l1 == (League { score: s, league_id: t.id, league_time: now })
                } else {
                    l1 == (League { score: s, league_id: id1, ..l0 })
                }
            }
        }
    }
}

impl League {
    pub fn get_league_id(&self) -> (r: i8)
        ensures
            r == self.league_id,
    {
        self.league_id
    }

    /// Adds `score` (which may be negative) with the table `temps`, at time
    /// `now`. The score never falls below 0, nor below the threshold of the
    /// league the table gives for it; a player who lost points and whose
    /// league is not in the table goes back to league 0; a player whose
    /// score reaches another league moves there at time `now`. Returns the
    /// new score.
    pub fn update_score_at(&mut self, score: i32, temps: &Vec<LeagueTemp>, now: i64) -> (r: i32)
        requires
            i32::MIN <= old(self).score + score <= i32::MAX,
        ensures
            r == final(self).score,
            r >= 0,
            league_updated(*old(self), *final(self), score, temps@, now),
    {
        self.score = self.score + score;
        if self.score < 0 {
            self.score = 0;
            return 0;
        }
        if score < 0 {
            if !has_league_id(temps, self.league_id) {
                self.league_id = 0;
            }
        }
        let league_temp = get_league_by_score(temps, self.score);
        match league_temp {
            None => self.score,
            Some(t) => {
                if self.score < t.score {
                    self.score = t.score;
                    return self.score;
                }
                if t.id != self.league_id {
                    self.league_id = t.id;
                    self.league_time = now;
                }
                self.score
            },
        }
    }

    /// Adds `score` with the table `temps` at the present time; see
    /// `update_score_at`.
    pub fn update_score(&mut self, score: i32, temps: &Vec<LeagueTemp>) -> (r: i32)
        requires
            i32::MIN <= old(self).score + score <= i32::MAX,
        ensures
            r == final(self).score,
            r >= 0,
            old(self).score + score < 0 ==> *final(self) == (League { score: 0, ..*old(self) }),
    {
        let now = now_millis();
        self.update_score_at(score, temps, now)
    }
}

} // verus!
