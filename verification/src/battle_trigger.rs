//! What happens when a player's character dies: the ranking lines, the
//! score of a matched battle, the map and the gold.

use vstd::prelude::*;
use crate::battle::{BattleData, SummaryUser, summary_line, alive_count, first_player, has_player, player_alive, player_of, player_position};
use crate::battle_player::{BattlePlayer, gold_after};
use crate::mgr::{League, LeagueTemp, league_updated};
use crate::outside::now_millis;
use crate::room::RoomType;
use crate::map_data::user_removed;

verus! {

/// The configured score of a place in the ranking.
#[derive(Debug, Clone, Copy, PartialEq, Eq, Structural)]
pub struct SummaryAwardTemp {
    pub rank: u8,
    pub score: i16,
}

/// `i` is the position of the first score configured for place `rank`.
pub open spec fn first_award(temps: Seq<SummaryAwardTemp>, rank: int, i: int) -> bool {
    &&& 0 <= i < temps.len()
    &&& temps[i].rank == rank
    &&& forall|j: int| 0 <= j < i ==> #[trigger] temps[j].rank != rank
}

/// The score configured for place `rank`; none (counted as 0) where there is none.
pub open spec fn award_score(temps: Seq<SummaryAwardTemp>, rank: int) -> int {
    if exists|i: int| #[trigger] first_award(temps, rank, i) {
        temps[choose|i: int| #[trigger] first_award(temps, rank, i)].score as int
    } else {
        0
    }
}

/// The sum of scores and the place reached after `k` steps from place
/// `rank0`, where step `i` (from 0) moves the place on by `i` before its
/// score is added.
pub open spec fn award_walk(temps: Seq<SummaryAwardTemp>, rank0: int, k: nat) -> (int, int)
    decreases k,
{
    if k == 0 {
        (0, rank0)
    } else {
        let a = award_walk(temps, rank0, (k - 1) as nat);
        let r = a.1 + (k - 1);
        (a.0 + award_score(temps, r), r)
    }
}

/// Division that rounds towards zero, as integer division does.
pub open spec fn trunc_div(a: int, b: int) -> int {
    if a >= 0 {
        a / b
    } else {
        -((-a) / b)
    }
}

/// The sum and the number of the leagues of those who left, other than `user_id`.
pub open spec fn league_walk(leave: Seq<(u32, i8)>, user_id: u32) -> (int, int)
    decreases leave.len(),
{
    if leave.len() == 0 {
        (0, 0)
    } else {
        let prev = league_walk(leave.drop_last(), user_id);
        if leave.last().0 == user_id {
            prev
        } else {
            (prev.0 + leave.last().1, prev.1 + 1)
        }
    }
}

/// The score a line of a matched battle gets at place `idx` (from 0) in a
/// group of `count` lines: the average of the configured scores walked from
/// the place after it (see `award_walk`), plus ten per league the player
/// `self_league` lies below the average league of those who left.
pub open spec fn summary_reward(leave: Seq<(u32, i8)>, user_id: u32, idx: int, count: int,
    scores: Seq<SummaryAwardTemp>, self_league: i8) -> int {
    let w = award_walk(scores, idx + 1, count as nat);
    let base = trunc_div(w.0, count);
    let lw = league_walk(leave, user_id);
    let avg = trunc_div(lw.0, lw.1);
    let unstable = if self_league >= avg { 0 } else { (avg - self_league) * 10 };
    base + unstable
}

/// The grade after a matched battle: one down (never below 1) for a
/// punishment or a place other than the first, one up for the first, and
/// `max_grade` where that goes above 2.
pub open spec fn new_grade(g: u8, is_punishment: bool, idx: int, max_grade: u8) -> int {
    if !is_punishment && idx + 1 == 1 {
        if g + 1 > 2 { max_grade as int } else { g + 1 }
    } else {
        if g - 1 <= 0 { 1 } else { g - 1 }
    }
}

/// Whether `e` is the ranking line of player `p` before the result is known.
pub open spec fn is_summary_of(e: SummaryUser, p: BattlePlayer) -> bool {
    &&& e.user_id == p.user_id
    &&& e.name@ == p.name@
    &&& e.cter_id == p.major_cter.0
    &&& e.grade == p.grade
    &&& e.league == p.league
    &&& e.summary_rank == 0
    &&& e.reward_score == 0
    &&& !e.push_to_server
}

/// `e1` is the line `e0` placed at `idx`: in a matched battle its grade,
/// league and score change too (the score is 0 where the league score
/// ends at 0).
pub open spec fn ranked_entry(e0: SummaryUser, e1: SummaryUser, idx: int, is_match: bool, is_punishment: bool,
    reward: i32, max_grade: u8, temps: Seq<LeagueTemp>, now: i64) -> bool {
    if !is_match {
        e1 == (SummaryUser { summary_rank: idx as u8, ..e0 })
    } else {
        &&& league_updated(e0.league, e1.league, reward, temps, now)
        &&& e1 == (SummaryUser {
            summary_rank: idx as u8,
            grade: new_grade(e0.grade, is_punishment, idx, max_grade) as u8,
            league: e1.league,
            reward_score: if e1.league.score == 0 { 0 } else { reward },
            ..e0
        })
    }
}

/// What ranking the lines `lines` at place `idx` demands of the numbers:
/// in a matched battle, grades of at least 1 (below 255 at the first
/// place), league scores that take the reward, and (without punishment)
/// sums of scores and leagues within their integer types, with someone who
/// left to average over.
pub open spec fn ranking_ready(lines: Seq<SummaryUser>, idx: int, is_match: bool, is_punishment: bool, reward: int,
    leave: Seq<(u32, i8)>, user_id: u32, scores: Seq<SummaryAwardTemp>, self_league: i8) -> bool {
    is_match ==> {
        &&& idx + 1 <= 255
        &&& forall|j: int| 0 <= j < lines.len() ==> 1 <= (#[trigger] lines[j]).grade
            && (!is_punishment && idx == 0 ==> lines[j].grade < 255)
            && i32::MIN <= lines[j].league.score + reward <= i32::MAX
        &&& !is_punishment ==> {
            let count = lines.len() as int;
            let lw = league_walk(leave, user_id);
            let avg = trunc_div(lw.0, lw.1);
            &&& count <= 127
            &&& forall|k: nat| #![trigger award_walk(scores, idx + 1, k)] k <= count ==> award_walk(scores, idx + 1, k).1 <= 255
                && i16::MIN <= award_walk(scores, idx + 1, k).0 <= i16::MAX
            &&& 0 < lw.1 <= 127
            &&& forall|n: int| 0 <= n <= leave.len() ==> i8::MIN <= #[trigger] league_walk(leave.take(n), user_id).0 <= i8::MAX
            &&& (self_league < avg ==> (avg - self_league) * 10 <= i8::MAX)
            &&& i16::MIN <= summary_reward(leave, user_id, idx, count, scores, self_league) <= i16::MAX
        }
    }
}

/// The score configured for place `rank` (see `award_score`).
fn find_award(scores: &Vec<SummaryAwardTemp>, rank: u8) -> (r: Option<i16>)
    ensures
        match r {
            Some(x) => x == award_score(scores@, rank as int) && exists|i: int| #[trigger] first_award(scores@, rank as int, i),
            None => !exists|i: int| #[trigger] first_award(scores@, rank as int, i),
        },
{
    let mut i: usize = 0;
    while i < scores.len()
        invariant
            i <= scores@.len(),
            forall|j: int| 0 <= j < i ==> #[trigger] scores@[j].rank != rank,
        decreases scores.len() - i,
    {
        if scores[i].rank == rank {
            proof {
                assert(first_award(scores@, rank as int, i as int));
                let k = choose|k: int| #[trigger] first_award(scores@, rank as int, k);
                if k < i {
                    assert(scores@[k].rank != rank);
                } else if i < k {
                    assert(scores@[i as int].rank != rank);
                }
            }
            return Some(scores[i].score);
        }
        i = i + 1;
    }
    None
}

/// `a / b` rounded towards zero, for `b > 0`.
fn div_toward_zero_i16(a: i16, b: i16) -> (r: i16)
    requires
        b > 0,
    ensures
        r == trunc_div(a as int, b as int),
{
    if a >= 0 {
        a / b
    } else {
        let n: i32 = -(a as i32);
        let d: i32 = b as i32;
        let q: i32 = n / d;
        assert(q <= n) by (nonlinear_arith)
            requires
                n >= 0,
                d >= 1,
                q == n / d,
        ;
        let r: i32 = -q;
        r as i16
    }
}

/// `a / b` rounded towards zero, for `b > 0`.
fn div_toward_zero_i8(a: i8, b: i8) -> (r: i8)
    requires
        b > 0,
    ensures
        r == trunc_div(a as int, b as int),
{
    if a >= 0 {
        a / b
    } else {
        let n: i16 = -(a as i16);
        let d: i16 = b as i16;
        let q: i16 = n / d;
        assert(q <= n) by (nonlinear_arith)
            requires
                n >= 0,
                d >= 1,
                q == n / d,
        ;
        let r: i16 = -q;
        r as i8
    }
}

/// The score of a line of a matched battle (see `summary_reward`).
fn summary_reward_exec(leave: &Vec<(u32, i8)>, user_id: u32, idx: u8, count: usize,
    scores: &Vec<SummaryAwardTemp>, self_league: i8) -> (r: i32)
    requires
        1 <= count <= 127,
        idx + 1 <= 255,
        forall|k: nat| #![trigger award_walk(scores@, idx + 1, k)] k <= count ==> award_walk(scores@, idx + 1, k).1 <= 255
            && i16::MIN <= award_walk(scores@, idx + 1, k).0 <= i16::MAX,
        0 < league_walk(leave@, user_id).1 <= 127,
        forall|n: int| 0 <= n <= leave@.len() ==> i8::MIN <= #[trigger] league_walk(leave@.take(n), user_id).0 <= i8::MAX,
        self_league < trunc_div(league_walk(leave@, user_id).0, league_walk(leave@, user_id).1)
            ==> (trunc_div(league_walk(leave@, user_id).0, league_walk(leave@, user_id).1) - self_league) * 10 <= i8::MAX,
        i16::MIN <= summary_reward(leave@, user_id, idx as int, count as int, scores@, self_league) <= i16::MAX,
    ensures
        r == summary_reward(leave@, user_id, idx as int, count as int, scores@, self_league),
{
    let mut rank: u8 = idx + 1;
    let mut base_score: i16 = 0;
    let mut k: usize = 0;
    while k < count
        invariant
            k <= count,
            count <= 127,
            forall|k2: nat| #![trigger award_walk(scores@, idx + 1, k2)] k2 <= count ==> award_walk(scores@, idx + 1, k2).1 <= 255
                && i16::MIN <= award_walk(scores@, idx + 1, k2).0 <= i16::MAX,
            (base_score as int, rank as int) == award_walk(scores@, idx + 1, k as nat),
        decreases count - k,
    {
        assert(award_walk(scores@, idx + 1, (k + 1) as nat).1 <= 255);
        rank = rank + k as u8;
        match find_award(scores, rank) {
            Some(x) => {
                assert(i16::MIN <= award_walk(scores@, idx + 1, (k + 1) as nat).0 <= i16::MAX);
                base_score = base_score + x;
            },
            None => {},
        }
        k = k + 1;
    }
    let base = div_toward_zero_i16(base_score, count as i16);
    let mut sum: i8 = 0;
    let mut n: i8 = 0;
    let mut j: usize = 0;
    let ghost lv = leave@;
    while j < leave.len()
        invariant
            lv == leave@,
            j <= lv.len(),
            forall|m: int| 0 <= m <= lv.len() ==> i8::MIN <= #[trigger] league_walk(lv.take(m), user_id).0 <= i8::MAX,
            0 < league_walk(lv, user_id).1 <= 127,
            (sum as int, n as int) == league_walk(lv.take(j as int), user_id),
            league_walk(lv.take(j as int), user_id).1 <= j,
        decreases lv.len() - j,
    {
        proof {
            assert(lv.take(j + 1).drop_last() =~= lv.take(j as int));
            lemma_league_walk_count_le(lv, user_id, j + 1);
        }
        if leave[j].0 != user_id {
            assert(i8::MIN <= league_walk(lv.take(j + 1), user_id).0 <= i8::MAX);
            sum = sum + leave[j].1;
            n = n + 1;
        }
        j = j + 1;
    }
    proof {
        assert(lv.take(lv.len() as int) =~= lv);
    }
    let avg = div_toward_zero_i8(sum, n);
    let unstable: i8 = if self_league >= avg { 0 } else { (avg - self_league) * 10 };
    (base + unstable as i16) as i32
}

/// The league count over a prefix stays within the prefix's length and
/// within the whole count.
proof fn lemma_league_walk_count_le(leave: Seq<(u32, i8)>, user_id: u32, n: int)
    requires
        0 <= n <= leave.len(),
    ensures
        0 <= league_walk(leave.take(n), user_id).1 <= n,
        league_walk(leave.take(n), user_id).1 <= league_walk(leave, user_id).1,
    decreases leave.len() - n,
{
    lemma_league_walk_count_bound(leave.take(n), user_id);
    if n < leave.len() {
        lemma_league_walk_count_le(leave, user_id, n + 1);
        assert(leave.take(n + 1).drop_last() =~= leave.take(n));
    } else {
        assert(leave.take(n) =~= leave);
    }
}

proof fn lemma_league_walk_count_bound(leave: Seq<(u32, i8)>, user_id: u32)
    ensures
        0 <= league_walk(leave, user_id).1 <= leave.len(),
    decreases leave.len(),
{
    if leave.len() > 0 {
        lemma_league_walk_count_bound(leave.drop_last(), user_id);
    }
}

/// `new_g` is group `old_g` with the lines `lines` placed at `idx` after it
/// (see `ranked_entry`).
pub open spec fn ranked_group(old_g: Seq<SummaryUser>, lines: Seq<SummaryUser>, new_g: Seq<SummaryUser>, idx: int,
    is_match: bool, is_punishment: bool, reward: i32, max_grade: u8, temps: Seq<LeagueTemp>, now: i64) -> bool {
    &&& new_g.len() == old_g.len() + lines.len()
    &&& forall|j: int| 0 <= j < old_g.len() ==> #[trigger] new_g[j] == old_g[j]
    &&& forall|j: int| 0 <= j < lines.len() ==> ranked_entry(#[trigger] lines[j], new_g[old_g.len() + j], idx,
        is_match, is_punishment, reward, max_grade, temps, now)
}

/// The score the lines get where a death closes a place.
pub open spec fn death_reward(bd: BattleData, user_id: u32, idx: int, count: int, is_punishment: bool,
    punishment_score: i32, scores: Seq<SummaryAwardTemp>, self_league: i8) -> i32 {
    if is_punishment {
        punishment_score
    } else if bd.room_type == RoomType::OneVOneVOneVOneMatch {
        summary_reward(bd.leave_map@, user_id, idx, count, scores, self_league) as i32
    } else {
        0
    }
}

/// Whether the death gives the dead player's gold to `from_user`: an
/// attacker other than the dead player itself, still in the battle.
pub open spec fn gold_goes_to(bd: BattleData, from_user: u32, user_id: u32) -> bool {
    &&& from_user != 0
    &&& from_user != user_id
    &&& has_player(bd.battle_player@, from_user)
    &&& player_alive(player_of(bd.battle_player@, from_user))
}

/// What a death demands of the numbers (see `ranking_ready`), and that the
/// gold handed on fits.
pub open spec fn death_ready(bd: BattleData, from_user: u32, user_id: u32, is_last_one: bool, is_punishment: bool,
    punishment_score: i32, scores: Seq<SummaryAwardTemp>) -> bool {
    has_player(bd.battle_player@, user_id) ==> {
        let p = player_of(bd.battle_player@, user_id);
        let idx = alive_count(bd.battle_player@) as int;
        let lines = bd.summary_vec_temp@.push(summary_line(p));
        let reward = death_reward(bd, user_id, idx, lines.len() as int, is_punishment, punishment_score, scores, p.league.league_id);
        &&& (is_last_one && idx < bd.summary_vec@.len()) ==> ranking_ready(lines, idx,
            bd.room_type == RoomType::OneVOneVOneVOneMatch, is_punishment, reward as int, bd.leave_map@, user_id, scores, p.league.league_id)
        &&& gold_goes_to(bd, from_user, user_id) ==> i32::MIN <= player_of(bd.battle_player@, from_user).gold + p.gold <= i32::MAX
    }
}

/// The battle `b1` after player `user_id` died, in battle `b0`, at the
/// hand of `from_user` (see `BattleData::after_cter_died_trigger_at`).
pub open spec fn died_after(b0: BattleData, b1: BattleData, from_user: u32, user_id: u32, is_last_one: bool,
    is_punishment: bool, punishment_score: i32, max_grade: Option<u8>, scores: Seq<SummaryAwardTemp>,
    temps: Seq<LeagueTemp>, now: i64) -> bool {
    if !has_player(b0.battle_player@, user_id) {
        b1 == b0
    } else {
        let p = player_of(b0.battle_player@, user_id);
        let idx = alive_count(b0.battle_player@) as int;
        let lines = b0.summary_vec_temp@.push(summary_line(p));
        let is_match = b0.room_type == RoomType::OneVOneVOneVOneMatch;
        let mg: u8 = match max_grade { Some(m) => m, None => 2 };
        let reward = death_reward(b0, user_id, idx, lines.len() as int, is_punishment, punishment_score, scores, p.league.league_id);
        &&& b1.room_type == b0.room_type
        &&& b1.turn_orders == b0.turn_orders
        &&& b1.next_turn_index == b0.next_turn_index
        &&& b1.leave_map@ == b0.leave_map@
        &&& if is_last_one && idx >= b0.summary_vec@.len() {
            &&& b1.summary_vec_temp@ == lines
            &&& b1.summary_vec@ == b0.summary_vec@
            &&& b1.tile_map == b0.tile_map
            &&& b1.battle_player@ == b0.battle_player@
        } else {
            &&& if is_last_one {
                &&& b1.summary_vec_temp@.len() == 0
                &&& b1.summary_vec@.len() == b0.summary_vec@.len()
                &&& forall|g: int| 0 <= g < b0.summary_vec@.len() && g != idx ==> #[trigger] b1.summary_vec@[g] == b0.summary_vec@[g]
                &&& ranked_group(b0.summary_vec@[idx]@, lines, b1.summary_vec@[idx]@, idx, is_match, is_punishment,
                    reward, mg, temps, now)
            } else {
                &&& b1.summary_vec_temp@ == lines
                &&& b1.summary_vec@ == b0.summary_vec@
            }
            &&& user_removed(b0.tile_map.map_cells@, b1.tile_map.map_cells@, user_id)
            &&& b1.tile_map.id == b0.tile_map.id
            &&& b1.tile_map.un_pair_map@ == b0.tile_map.un_pair_map@
            &&& if gold_goes_to(b0, from_user, user_id) {
                exists|i: int| #[trigger] first_player(b0.battle_player@, from_user, i)
                    && b1.battle_player@ == b0.battle_player@.update(i, BattlePlayer {
                        gold: gold_after(b0.battle_player@[i].gold, p.gold) as i32,
                        ..b0.battle_player@[i]
                    })
            } else {
                b1.battle_player@ == b0.battle_player@
            }
        }
    }
}

/// When the last of a group of deaths closes a place (the number of players
/// still in the battle), every line placed there takes that place; in a
/// matched battle its grade moves: without punishment the first place goes
/// one grade up (to `max_grade`, 2 where none is configured, where that
/// passes 2), any other place, or a punishment, one grade down but never
/// below 1. Outside a matched battle the grade stays.
pub proof fn law_place_moves_grade(b0: BattleData, b1: BattleData, from_user: u32, user_id: u32, is_punishment: bool,
    punishment_score: i32, max_grade: Option<u8>, scores: Seq<SummaryAwardTemp>, temps: Seq<LeagueTemp>, now: i64, j: int)
    requires
        died_after(b0, b1, from_user, user_id, true, is_punishment, punishment_score, max_grade, scores, temps, now),
        has_player(b0.battle_player@, user_id),
        alive_count(b0.battle_player@) < b0.summary_vec@.len(),
        0 <= j <= b0.summary_vec_temp@.len(),
    ensures
        ({
            let idx = alive_count(b0.battle_player@) as int;
            let lines = b0.summary_vec_temp@.push(summary_line(player_of(b0.battle_player@, user_id)));
            let g = lines[j].grade as int;
            let e = b1.summary_vec@[idx]@[b0.summary_vec@[idx]@.len() + j];
            let mg: int = match max_grade { Some(m) => m as int, None => 2 };
            &&& e.user_id == lines[j].user_id
            &&& e.summary_rank == idx as u8
            &&& b0.room_type != RoomType::OneVOneVOneVOneMatch ==> e.grade == g
            &&& b0.room_type == RoomType::OneVOneVOneVOneMatch && !is_punishment && idx == 0
                ==> e.grade == (if g + 1 > 2 { mg } else { g + 1 })
            &&& b0.room_type == RoomType::OneVOneVOneVOneMatch && (is_punishment || idx != 0)
                ==> e.grade == (if g - 1 < 1 { 1 } else { g - 1 })
        }),
{
    let idx = alive_count(b0.battle_player@) as int;
    let lines = b0.summary_vec_temp@.push(summary_line(player_of(b0.battle_player@, user_id)));
    assert(lines[j] == lines[j]);
    assert(ranked_entry(lines[j], b1.summary_vec@[idx]@[b0.summary_vec@[idx]@.len() + j], idx,
        b0.room_type == RoomType::OneVOneVOneVOneMatch, is_punishment,
        death_reward(b0, user_id, idx, lines.len() as int, is_punishment, punishment_score, scores,
            player_of(b0.battle_player@, user_id).league.league_id),
        match max_grade { Some(m) => m, None => 2u8 }, temps, now));
}

impl BattleData {
    /// Player `user_id` died at the hand of `from_user` (0 for none), at
    /// time `now`. Its ranking line joins the lines waiting for a place;
    /// where `is_last_one`, they all take the place given by the number of
    /// players still in the battle, and in a matched battle their grade,
    /// league and score change (a punishment scores `punishment_score`;
    /// `max_grade` caps a rise, 2 where none is configured; `scores` are the
    /// scores of the places; `league_temps` the leagues). Where there is no
    /// group for that place, nothing more happens. Otherwise the player
    /// leaves the map and its gold goes to `from_user` where that one is
    /// another player still in the battle (a death by one's own hand, or with
    /// no attacker, moves no gold). See `died_after`.
    pub fn after_cter_died_trigger_at(
        &mut self,
        from_user: u32,
        user_id: u32,
        is_last_one: bool,
        is_punishment: bool,
        punishment_score: i32,
        max_grade: Option<u8>,
        scores: &Vec<SummaryAwardTemp>,
        league_temps: &Vec<LeagueTemp>,
        now: i64,
    )
        requires
            death_ready(*old(self), from_user, user_id, is_last_one, is_punishment, punishment_score, scores@),
        ensures
            died_after(*old(self), *final(self), from_user, user_id, is_last_one, is_punishment, punishment_score,
                max_grade, scores@, league_temps@, now),
    {
        let ghost b0 = *self;
        let pos = match self.get_battle_player_pos(user_id, false) {
            Ok(i) => i,
            Err(_) => return,
        };
        let ghost p = b0.battle_player@[pos as int];
        assert(p == player_of(b0.battle_player@, user_id));
        let gold = self.battle_player[pos].gold;
        let self_league = self.battle_player[pos].league.get_league_id();
        let player_count = self.get_alive_player_num();
        let sp = SummaryUser::from_battle_player(&self.battle_player[pos]);
        self.summary_vec_temp.push(sp);
        let ghost lines = self.summary_vec_temp@;
        let ghost idx = player_count as int;
        assert(lines == b0.summary_vec_temp@.push(summary_line(p)));
        if is_last_one {
            let index = player_count;
            if index >= self.summary_vec.len() {
                return;
            }
            let is_match = self.room_type == RoomType::OneVOneVOneVOneMatch;
            let count = self.summary_vec_temp.len();
            let mg: u8 = match max_grade {
                Some(m) => m,
                None => 2,
            };
            let reward: i32 = if is_punishment {
                punishment_score
            } else if is_match {
                summary_reward_exec(&self.leave_map, user_id, index as u8, count, scores, self_league)
            } else {
                0
            };
            let mut temp: Vec<SummaryUser> = Vec::new();
            std::mem::swap(&mut temp, &mut self.summary_vec_temp);
            let mut ranked: Vec<SummaryUser> = Vec::new();
            let mut k: usize = 0;
            while temp.len() > 0
                invariant
                    k + temp@.len() == lines.len(),
                    temp@ == lines.skip(k as int),
                    ranked@.len() == k,
                    forall|j: int| 0 <= j < k ==> ranked_entry(#[trigger] lines[j], ranked@[j], idx,
                        is_match, is_punishment, reward, mg, league_temps@, now),
                    is_match ==> ranking_ready(lines, idx, is_match, is_punishment, reward as int, b0.leave_map@,
                        user_id, scores@, self_league),
                    idx == index as int,
                    count == lines.len(),
                decreases temp@.len(),
            {
                let mut e = temp.remove(0);
                let ghost e0 = e;
                assert(e0 == lines[k as int]);
                e.summary_rank = index as u8;
                if is_match {
                    assert(1 <= lines[k as int].grade);
                    if is_punishment {
                        e.grade = e.grade - 1;
                        if e.grade <= 0 {
                            e.grade = 1;
                        }
                    } else {
                        let rank = e.summary_rank + 1;
                        if rank == 1 {
                            e.grade = e.grade + 1;
                            if e.grade > 2 {
                                e.grade = mg;
                            }
                        } else {
                            e.grade = e.grade - 1;
                            if e.grade <= 0 {
                                e.grade = 1;
                            }
                        }
                    }
                    e.reward_score = reward;
                    let res = e.league.update_score_at(reward, league_temps, now);
                    if res == 0 {
                        e.reward_score = 0;
                    }
                }
                ranked.push(e);
                k = k + 1;
                proof {
                    assert(temp@ =~= lines.skip(k as int));
                }
            }
            let ghost sv0 = self.summary_vec@;
            let ghost ranked_before = ranked;
            let mut g = self.summary_vec.remove(index);
            g.append(&mut ranked);
            self.summary_vec.insert(index, g);
            proof {
                assert(self.summary_vec@ =~= sv0.update(index as int, self.summary_vec@[index as int]));
                assert(lines.skip(k as int).len() == 0);
                let ng = self.summary_vec@[index as int]@;
                assert forall|j: int| 0 <= j < lines.len() implies ranked_entry(#[trigger] lines[j],
                    ng[b0.summary_vec@[idx]@.len() + j], idx, is_match, is_punishment, reward, mg, league_temps@, now) by {
                    assert(ng[b0.summary_vec@[idx]@.len() + j] == ranked_before@[j]);
                }
                assert(reward == death_reward(b0, user_id, idx, lines.len() as int, is_punishment, punishment_score,
                    scores@, p.league.league_id));
            }
        }
        self.tile_map.remove_user(user_id);
        assert(self.battle_player@ == b0.battle_player@);
        if from_user == 0 || from_user == user_id {
            return;
        }
        match self.get_battle_player_pos(from_user, true) {
            Ok(i) => {
                let ghost ps1 = self.battle_player@;
                let mut q = self.battle_player.remove(i);
                q.add_gold(gold);
                self.battle_player.insert(i, q);
                proof {
                    assert(self.battle_player@ =~= ps1.update(i as int, BattlePlayer {
                        gold: gold_after(ps1[i as int].gold, p.gold) as i32, ..ps1[i as int] }));
                }
            },
            Err(_) => {},
        }
    }
}

impl BattleData {
    /// Player `user_id` died at the hand of `from_user`, now; see
    /// `after_cter_died_trigger_at`, which states everything but the time at
    /// which a league is entered.
    pub fn after_cter_died_trigger(
        &mut self,
        from_user: u32,
        user_id: u32,
        is_last_one: bool,
        is_punishment: bool,
        punishment_score: i32,
        max_grade: Option<u8>,
        scores: &Vec<SummaryAwardTemp>,
        league_temps: &Vec<LeagueTemp>,
    )
        requires
            death_ready(*old(self), from_user, user_id, is_last_one, is_punishment, punishment_score, scores@),
        ensures
            exists|now: i64| died_after(*old(self), *final(self), from_user, user_id, is_last_one, is_punishment,
                punishment_score, max_grade, scores@, league_temps@, now),
    {
        let now = now_millis();
        self.after_cter_died_trigger_at(from_user, user_id, is_last_one, is_punishment, punishment_score, max_grade,
            scores, league_temps, now);
    }
}

} // verus!
