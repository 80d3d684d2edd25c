//! A room: its members, the turn order they take, the choice of their
//! starting cells, and what happens when one leaves while cells are chosen.

use vstd::prelude::*;
use crate::battle::{BattleData, has_player, player_alive, player_of, player_position, first_player, lemma_first_player_unique, stop_slot};
use crate::battle_helper::current_cter_of;
use crate::battle_player::{BattlePlayer, IndexData, first_cter, has_cter};
use crate::battle_cter::BattleCharacter;
use crate::map_data::{MapCell, user_removed};
use crate::mgr::League;
use crate::mission::{MissionTemp, player_mission_candidates, random_mission};
use crate::outside::{now_millis, random_index};
use crate::robot_open_cell::lemma_current_cter;
use crate::room::{RoomState, RoomType, MEMBER_MAX};

verus! {

/// A character a member owns.
pub struct Character {
    /// configuration id of the character
    pub cter_temp_id: u32,
    pub is_robot: bool,
    /// ids of the skills unlocked for it
    pub skills: Vec<u32>,
    /// ids of the skills used last time
    pub last_use_skills: Vec<u32>,
}

/// The penalty a member carries for leaving matched battles.
#[derive(Debug, Clone, Copy, PartialEq, Eq, Structural)]
pub struct PunishMatch {
    /// when the penalty started, in milliseconds
    pub start_time: i64,
    /// how many penalties
    pub punish_id: u8,
}

impl PunishMatch {
    /// One more penalty, starting at the current local time (from
    /// `now_millis`; which time that is is not stated).
    pub fn add_punish(&mut self)
        requires
            old(self).punish_id < u8::MAX,
        ensures
            final(self).punish_id == old(self).punish_id + 1,
    {
        self.start_time = now_millis();
        self.punish_id = self.punish_id + 1;
    }
}

/// The settings of a room.
#[derive(Debug, Clone, Copy, PartialEq, Eq, Structural)]
pub struct RoomSetting {
    /// time limit of a turn
    pub turn_limit_time: u32,
    pub season_id: i32,
    pub ai_level: u8,
}

/// A member of a room.
pub struct Member {
    pub user_id: u32,
    pub nick_name: String,
    pub grade: u8,
    pub league: League,
    pub team_id: u8,
    pub is_robot: bool,
    /// the characters the member owns
    pub cters: Vec<Character>,
    /// the character the member chose
    pub chose_cter: Character,
    pub punish_match: PunishMatch,
    /// when the member entered the room
    pub join_time: u64,
}

impl Member {
    /// One more penalty for the member (see `PunishMatch::add_punish`).
    pub fn add_punish(&mut self)
        requires
            old(self).punish_match.punish_id < u8::MAX,
        ensures
            final(self).punish_match.punish_id == old(self).punish_match.punish_id + 1,
            final(self).user_id == old(self).user_id,
            final(self).league == old(self).league,
            final(self).is_robot == old(self).is_robot,
    {
        self.punish_match.add_punish();
    }
}

/// A room and the battle in it.
pub struct Room {
    pub id: u32,
    pub room_type: RoomType,
    pub owner_id: u32,
    pub state: RoomState,
    pub members: Vec<Member>,
    /// the user id in each member slot, 0 for an empty one
    pub member_index: [u32; 4],
    pub setting: RoomSetting,
    pub battle_data: BattleData,
}

/// What the room does next, once a member chose a cell.
#[derive(Debug, Clone, Copy, PartialEq, Eq, Structural)]
pub enum RoomAction {
    /// every cell is chosen: the battle starts
    StartBattle,
    /// the next member chooses: its time limit starts
    ChoiceIndexTask,
}

/// `i` is the first member that is no robot and has a user id.
pub open spec fn first_human(ms: Seq<Member>, i: int) -> bool {
    &&& 0 <= i < ms.len()
    &&& !ms[i].is_robot && ms[i].user_id > 0
    &&& forall|j: int| 0 <= j < i ==> #[trigger] ms[j].is_robot || ms[j].user_id == 0
}

/// Every player still in the battle stands on a cell.
pub open spec fn all_placed(ps: Seq<BattlePlayer>) -> bool {
    forall|i: int| 0 <= i < ps.len() && player_alive(#[trigger] ps[i])
        ==> current_cter_of(ps[i]).index_data.map_cell_index is Some
}

/// Every player still in the battle acts with a character it has.
pub open spec fn players_have_cters(ps: Seq<BattlePlayer>) -> bool {
    forall|i: int| 0 <= i < ps.len() && player_alive(#[trigger] ps[i]) ==> has_cter(ps[i].cters@, ps[i].current_cter.0)
}

/// Some slot of the turn order holds a player the turn may stop at.
pub open spec fn some_stop_slot(bd: BattleData) -> bool {
    exists|s: int| 0 <= s < 4 && #[trigger] stop_slot(bd.battle_player@, bd.turn_orders@[s])
}

impl Room {
    pub fn get_state(&self) -> (r: RoomState)
        ensures
            r == self.state,
    {
        self.state
    }

    pub fn get_room_type(&self) -> (r: RoomType)
        ensures
            r == self.room_type,
    {
        self.room_type
    }

    pub fn get_room_id(&self) -> (r: u32)
        ensures
            r == self.id,
    {
        self.id
    }

    /// Whether the room has no member.
    pub fn is_empty(&self) -> (r: bool)
        ensures
            r == (self.members@.len() == 0),
    {
        self.members.len() == 0
    }

    /// The user id of some member that is no robot: the first one; 0 where
    /// there is none.
    pub fn get_user(&self) -> (r: u32)
        ensures
            (exists|i: int| #[trigger] first_human(self.members@, i)) ==> exists|i: int| #[trigger] first_human(self.members@, i)
                && r == self.members@[i].user_id,
            !(exists|i: int| #[trigger] first_human(self.members@, i)) ==> r == 0,
    {
        let mut i: usize = 0;
        while i < self.members.len()
            invariant
                i <= self.members@.len(),
                forall|j: int| 0 <= j < i ==> #[trigger] self.members@[j].is_robot || self.members@[j].user_id == 0,
            decreases self.members@.len() - i,
        {
            let m = &self.members[i];
            if !m.is_robot && m.user_id > 0 {
                assert(first_human(self.members@, i as int));
                return m.user_id;
            }
            i = i + 1;
        }
        proof {
            if exists|k: int| #[trigger] first_human(self.members@, k) {
                let k = choose|k: int| #[trigger] first_human(self.members@, k);
                assert(self.members@[k].is_robot || self.members@[k].user_id == 0);
            }
        }
        0
    }

    /// Whether it is member `user_id`'s turn to choose a cell.
    pub fn is_can_choice_index_now(&self, user_id: u32) -> (r: bool)
        ensures
            r == (self.battle_data.next_turn_index < 4 && self.battle_data.turn_orders@[self.battle_data.next_turn_index as int] == user_id),
    {
        match self.battle_data.get_turn_user(None) {
            Ok(id) => id == user_id,
            Err(_) => false,
        }
    }

    pub fn get_next_turn_index(&self) -> (r: usize)
        ensures
            r == self.battle_data.next_turn_index,
    {
        self.battle_data.next_turn_index
    }

    pub fn set_next_turn_index(&mut self, index: usize)
        ensures
            final(self).battle_data == (BattleData { next_turn_index: index, ..old(self).battle_data }),
            final(self).state == old(self).state,
            final(self).members == old(self).members,
    {
        self.battle_data.next_turn_index = index;
    }

    /// Puts member `user_id` in slot `index` of the turn order; nothing for
    /// a slot past the last.
    pub fn insert_turn_orders(&mut self, index: usize, user_id: u32)
        ensures
            index < MEMBER_MAX ==> final(self).battle_data.turn_orders@ == old(self).battle_data.turn_orders@.update(index as int, user_id),
            index >= MEMBER_MAX ==> final(self).battle_data.turn_orders == old(self).battle_data.turn_orders,
            final(self).battle_data == (BattleData { turn_orders: final(self).battle_data.turn_orders, ..old(self).battle_data }),
            final(self).state == old(self).state,
            final(self).members == old(self).members,
    {
        if index >= MEMBER_MAX {
            return;
        }
        self.battle_data.turn_orders.set(index, user_id);
    }

    /// Empties slot `index` of the turn order; nothing for a slot past the last.
    pub fn remove_turn_orders(&mut self, index: usize)
        ensures
            index < MEMBER_MAX ==> final(self).battle_data.turn_orders@ == old(self).battle_data.turn_orders@.update(index as int, 0u32),
            index >= MEMBER_MAX ==> final(self).battle_data.turn_orders == old(self).battle_data.turn_orders,
            final(self).battle_data == (BattleData { turn_orders: final(self).battle_data.turn_orders, ..old(self).battle_data }),
            final(self).state == old(self).state,
            final(self).members == old(self).members,
    {
        if index >= MEMBER_MAX {
            return;
        }
        self.battle_data.turn_orders.set(index, 0);
    }

    /// Whether member `user_id` has a slot in the turn order.
    pub fn turn_order_contains(&self, user_id: u32) -> (r: bool)
        ensures
            r == self.battle_data.turn_orders@.contains(user_id),
    {
        let mut i: usize = 0;
        while i < 4
            invariant
                i <= 4,
                forall|j: int| 0 <= j < i ==> #[trigger] self.battle_data.turn_orders@[j] != user_id,
            decreases 4 - i,
        {
            if self.battle_data.turn_orders[i] == user_id {
                assert(self.battle_data.turn_orders@[i as int] == user_id);
                return true;
            }
            i = i + 1;
        }
        proof {
            if self.battle_data.turn_orders@.contains(user_id) {
                let j = choose|j: int| 0 <= j < 4 && self.battle_data.turn_orders@[j] == user_id;
                assert(self.battle_data.turn_orders@[j] != user_id);
            }
        }
        false
    }

    /// Whether the choice of cells is over: the room neither waits nor
    /// has its members choose.
    pub fn check_index_over(&self) -> (r: bool)
        ensures
            r == (self.state != RoomState::AwaitConfirm && self.state != RoomState::AwaitReady
                && self.state != RoomState::ChoiceIndex),
    {
        self.state != RoomState::AwaitConfirm && self.state != RoomState::AwaitReady && self.state != RoomState::ChoiceIndex
    }

    /// The turn to choose a cell passes on (see
    /// `BattleData::choice_index_next_turn`); while cells are chosen, the
    /// battle starts once every player still in it stands on a cell.
    pub fn check_next_choice_index(&mut self)
        requires
            some_stop_slot(old(self).battle_data),
            players_have_cters(old(self).battle_data.battle_player@),
        ensures
            final(self).battle_data == (BattleData { next_turn_index: final(self).battle_data.next_turn_index, ..old(self).battle_data }),
            final(self).battle_data.battle_player@ == old(self).battle_data.battle_player@,
            final(self).battle_data.turn_orders == old(self).battle_data.turn_orders,
            final(self).battle_data.tile_map == old(self).battle_data.tile_map,
            final(self).battle_data.next_turn_index < 4,
            stop_slot(final(self).battle_data.battle_player@,
                final(self).battle_data.turn_orders@[final(self).battle_data.next_turn_index as int]),
            final(self).state == if old(self).state != RoomState::BattleStarted
                && all_placed(old(self).battle_data.battle_player@) {
                RoomState::BattleStarted
            } else {
                old(self).state
            },
            final(self).members == old(self).members,
    {
        let ghost bd0 = self.battle_data;
        let _ = self.battle_data.choice_index_next_turn();
        if self.state == RoomState::BattleStarted {
            return;
        }
        let ps = &self.battle_data.battle_player;
        let mut res = true;
        let mut i: usize = 0;
        while i < ps.len()
            invariant
                i <= ps@.len(),
                players_have_cters(ps@),
                res == forall|j: int| 0 <= j < i && player_alive(#[trigger] ps@[j])
                    ==> current_cter_of(ps@[j]).index_data.map_cell_index is Some,
            decreases ps@.len() - i,
        {
            let p = &ps[i];
            if !p.is_died() {
                let c = p.get_current_cter();
                proof {
                    let k = choose|k: int| first_cter(p.cters@, p.current_cter.0, k) && *c == #[trigger] p.cters@[k];
                    lemma_current_cter(*p, k);
                }
                if !c.map_cell_index_is_choiced() {
                    res = false;
                }
            }
            i = i + 1;
        }
        if res {
            self.state = RoomState::BattleStarted;
        }
    }
}

/// `p1` is player `p` with the character it acts with now standing on cell `index`.
pub open spec fn placed_on(p: BattlePlayer, p1: BattlePlayer, index: usize) -> bool {
    let ci = choose|k: int| first_cter(p.cters@, p.current_cter.0, k);
    let c = p.cters@[ci];
    &&& p1 == (BattlePlayer { cters: p1.cters, ..p })
    &&& p1.cters@ == p.cters@.update(ci, BattleCharacter {
        index_data: IndexData { map_cell_index: Some(index), ..c.index_data }, ..c })
}

impl Room {
    /// Member `user_id` chose cell `index`: the character it acts with
    /// stands there and the cell records the member, the turn to choose
    /// passes on (see `check_next_choice_index`), and the member is given a
    /// mission drawn at random from `no_condition` (see `random_mission`).
    /// Returns what the room does next: the battle starts once the choice
    /// is over, else the next member chooses. `None`, with nothing changed,
    /// where no player has that user id.
    pub fn choice_index(&mut self, user_id: u32, index: u32, no_condition: &Vec<MissionTemp>) -> (r: Option<RoomAction>)
        requires
            (index as usize) < old(self).battle_data.tile_map.map_cells@.len(),
            has_player(old(self).battle_data.battle_player@, user_id) ==> {
                let p = player_of(old(self).battle_data.battle_player@, user_id);
                &&& has_cter(p.cters@, p.current_cter.0)
                &&& players_have_cters(old(self).battle_data.battle_player@)
                &&& some_stop_slot(old(self).battle_data)
                &&& player_mission_candidates(old(self).battle_data, user_id, no_condition@).len() > 0
            },
        ensures
            !has_player(old(self).battle_data.battle_player@, user_id) ==> r is None && *final(self) == *old(self),
            has_player(old(self).battle_data.battle_player@, user_id) ==> exists|i: int, m: u32|
                #![trigger first_player(old(self).battle_data.battle_player@, user_id, i), player_mission_candidates(old(self).battle_data, user_id, no_condition@).contains(m)]
                first_player(old(self).battle_data.battle_player@, user_id, i) && {
                let ps0 = old(self).battle_data.battle_player@;
                let ps1 = final(self).battle_data.battle_player@;
                let cells = old(self).battle_data.tile_map.map_cells@;
                let p1 = ps1[i];
                &&& ps1.len() == ps0.len()
                &&& forall|j: int| 0 <= j < ps0.len() && j != i ==> #[trigger] ps1[j] == ps0[j]
                &&& placed_on(ps0[i], BattlePlayer { mission_data: ps0[i].mission_data, ..p1 }, index as usize)
                &&& player_mission_candidates(old(self).battle_data, user_id, no_condition@).contains(m)
                &&& crate::mission::mission_taken(ps0[i].mission_data, p1.mission_data, no_condition@, m)
                &&& final(self).battle_data.tile_map.map_cells@ == cells.update(index as int, MapCell { user_id, ..cells[index as int] })
                &&& final(self).battle_data.next_turn_index < 4
                &&& stop_slot(ps1, final(self).battle_data.turn_orders@[final(self).battle_data.next_turn_index as int])
                &&& final(self).battle_data.turn_orders == old(self).battle_data.turn_orders
                &&& final(self).state == if old(self).state != RoomState::BattleStarted && all_placed(ps1) {
                    RoomState::BattleStarted
                } else {
                    old(self).state
                }
                &&& r == Some(if final(self).state != RoomState::AwaitConfirm && final(self).state != RoomState::AwaitReady
                    && final(self).state != RoomState::ChoiceIndex { RoomAction::StartBattle } else { RoomAction::ChoiceIndexTask })
                &&& final(self).members == old(self).members
            },
    {
        let pos = match player_position(&self.battle_data.battle_player, user_id) {
            Some(p) => p,
            None => return None,
        };
        let ghost ps0 = self.battle_data.battle_player@;
        let ghost cells = self.battle_data.tile_map.map_cells@;
        proof {
            lemma_first_player_unique(ps0, user_id, pos as int, choose|q: int| first_player(ps0, user_id, q));
        }
        let mut p = self.battle_data.battle_player.remove(pos);
        let ghost p0 = p;
        let ci = crate::battle_player::cter_position(&p.cters, p.current_cter.0).unwrap();
        p.cters[ci].index_data.map_cell_index = Some(index as usize);
        proof {
            let k = choose|k: int| first_cter(p0.cters@, p0.current_cter.0, k);
            if (ci as int) < k {
                assert(p0.cters@[ci as int].base_attr.cter_id != p0.current_cter.0);
            } else if k < ci {
                assert(p0.cters@[k].base_attr.cter_id != p0.current_cter.0);
            }
            assert(p.cters@ =~= p0.cters@.update(ci as int, BattleCharacter {
                index_data: IndexData { map_cell_index: Some(index as usize), ..p0.cters@[ci as int].index_data }, ..p0.cters@[ci as int] }));
            assert(placed_on(p0, p, index as usize));
            assert(has_cter(p.cters@, p.current_cter.0)) by {
                assert(p.cters@[ci as int].base_attr.cter_id == p.current_cter.0);
            }
        }
        self.battle_data.battle_player.insert(pos, p);
        self.battle_data.tile_map.map_cells[index as usize].user_id = user_id;
        let ghost ps_mid = self.battle_data.battle_player@;
        proof {
            assert(ps_mid =~= ps0.update(pos as int, p));
            lemma_same_ids(ps0, ps_mid);
            let w = choose|w: int| 0 <= w < 4 && #[trigger] stop_slot(ps0, old(self).battle_data.turn_orders@[w]);
            assert(stop_slot(ps_mid, self.battle_data.turn_orders@[w]));
            assert(some_stop_slot(self.battle_data));
            assert forall|j: int| 0 <= j < ps_mid.len() && player_alive(#[trigger] ps_mid[j])
                implies has_cter(ps_mid[j].cters@, ps_mid[j].current_cter.0) by {
                if j != pos {
                    assert(ps_mid[j] == ps0[j]);
                }
            }
        }
        self.check_next_choice_index();
        proof {
            assert(first_player(ps_mid, user_id, pos as int));
            lemma_first_player_unique(ps_mid, user_id, pos as int, choose|q: int| first_player(ps_mid, user_id, q));
            assert(player_of(ps_mid, user_id).mission_data == player_of(ps0, user_id).mission_data);
            assert(player_mission_candidates(self.battle_data, user_id, no_condition@)
                == player_mission_candidates(old(self).battle_data, user_id, no_condition@));
        }
        let m = random_mission(&mut self.battle_data, user_id, no_condition);
        proof {
            let ps1 = self.battle_data.battle_player@;
            let i2 = choose|i2: int| #[trigger] first_player(ps_mid, user_id, i2)
                && ps1 == ps_mid.update(i2, BattlePlayer { mission_data: ps1[i2].mission_data, ..ps_mid[i2] })
                && crate::mission::mission_taken(ps_mid[i2].mission_data, ps1[i2].mission_data, no_condition@, m);
            lemma_first_player_unique(ps_mid, user_id, pos as int, i2);
            assert(BattlePlayer { mission_data: ps0[pos as int].mission_data, ..ps1[pos as int] } == p);
            assert(all_placed(ps_mid) == all_placed(ps1)) by {
                assert forall|j: int| 0 <= j < ps1.len() implies
                    (#[trigger] ps1[j]).cters == ps_mid[j].cters && ps1[j].current_cter == ps_mid[j].current_cter
                    && ps1[j].status == ps_mid[j].status by {}
                if all_placed(ps_mid) {
                    assert forall|j: int| 0 <= j < ps1.len() && player_alive(#[trigger] ps1[j])
                        implies current_cter_of(ps1[j]).index_data.map_cell_index is Some by {
                        assert(player_alive(ps_mid[j]));
                    }
                }
                if all_placed(ps1) {
                    assert forall|j: int| 0 <= j < ps_mid.len() && player_alive(#[trigger] ps_mid[j])
                        implies current_cter_of(ps_mid[j]).index_data.map_cell_index is Some by {
                        assert(player_alive(ps1[j]));
                    }
                }
            }
            assert(first_player(old(self).battle_data.battle_player@, user_id, pos as int));
            lemma_same_ids(ps_mid, ps1);
        }
        if self.check_index_over() {
            Some(RoomAction::StartBattle)
        } else {
            Some(RoomAction::ChoiceIndexTask)
        }
    }
}

/// `s` with key `k` set to `v`: the first entry with that key takes the
/// value, or the entry is added at the end where there is none.
pub open spec fn set_entry(s: Seq<(u32, i8)>, k: u32, v: i8) -> Seq<(u32, i8)> {
    if exists|i: int| 0 <= i < s.len() && #[trigger] s[i].0 == k {
        let i = choose|i: int| 0 <= i < s.len() && #[trigger] s[i].0 == k && forall|j: int| 0 <= j < i ==> #[trigger] s[j].0 != k;
        s.update(i, (k, v))
    } else {
        s.push((k, v))
    }
}

/// The league of each of the first `n` members, set one after another.
pub open spec fn league_entries(s: Seq<(u32, i8)>, ms: Seq<Member>, n: nat) -> Seq<(u32, i8)>
    decreases n,
{
    if n == 0 {
        s
    } else {
        set_entry(league_entries(s, ms, (n - 1) as nat), ms[n - 1].user_id, ms[n - 1].league.league_id)
    }
}

fn set_league_entry(v: &mut Vec<(u32, i8)>, k: u32, x: i8)
    ensures
        final(v)@ == set_entry(old(v)@, k, x),
{
    let mut i: usize = 0;
    while i < v.len()
        invariant
            v@ == old(v)@,
            i <= v@.len(),
            forall|j: int| 0 <= j < i ==> #[trigger] v@[j].0 != k,
        decreases v@.len() - i,
    {
        if v[i].0 == k {
            proof {
                let c = choose|c: int| 0 <= c < v@.len() && #[trigger] v@[c].0 == k && forall|j: int| 0 <= j < c ==> #[trigger] v@[j].0 != k;
                assert(0 <= i < v@.len() && v@[i as int].0 == k && forall|j: int| 0 <= j < i ==> #[trigger] v@[j].0 != k);
                if c < i {
                    assert(v@[c].0 != k);
                } else if (i as int) < c {
                    assert(v@[i as int].0 != k);
                }
            }
            v.set(i, (k, x));
            return;
        }
        i = i + 1;
    }
    v.push((k, x));
}

/// How many members from the `k`-th on have no slot in the turn order `orders`.
pub open spec fn unplaced_from(ms: Seq<Member>, orders: Seq<u32>, k: int) -> nat
    decreases ms.len() - k,
{
    if k >= ms.len() {
        0
    } else {
        unplaced_from(ms, orders, k + 1) + if orders.contains(ms[k].user_id) { 0nat } else { 1nat }
    }
}

/// How many of the first `n` slots of `orders` are empty.
pub open spec fn empty_slots(orders: Seq<u32>, n: nat) -> nat
    decreases n,
{
    if n == 0 {
        0
    } else {
        empty_slots(orders, (n - 1) as nat) + if orders[n - 1] == 0 { 1nat } else { 0nat }
    }
}

proof fn lemma_unplaced_mono(ms: Seq<Member>, o1: Seq<u32>, o2: Seq<u32>, k: int)
    requires
        0 <= k,
        forall|x: u32| x != 0 && o1.contains(x) ==> #[trigger] o2.contains(x),
        forall|i: int| 0 <= i < ms.len() ==> #[trigger] ms[i].user_id != 0,
    ensures
        unplaced_from(ms, o2, k) <= unplaced_from(ms, o1, k),
    decreases ms.len() - k,
{
    if k < ms.len() {
        lemma_unplaced_mono(ms, o1, o2, k + 1);
        if o1.contains(ms[k].user_id) {
            assert(o2.contains(ms[k].user_id));
        }
    }
}

proof fn lemma_empty_slots_fill(orders: Seq<u32>, s: int, u: u32, n: nat)
    requires
        0 <= s < orders.len(),
        n <= orders.len(),
        orders[s] == 0,
        u != 0,
    ensures
        s < n ==> empty_slots(orders.update(s, u), n) + 1 == empty_slots(orders, n),
        s >= n ==> empty_slots(orders.update(s, u), n) == empty_slots(orders, n),
    decreases n,
{
    if n > 0 {
        lemma_empty_slots_fill(orders, s, u, (n - 1) as nat);
    }
}

proof fn lemma_empty_slots_count(orders: Seq<u32>, slots: Seq<usize>, n: nat)
    requires
        n <= orders.len(),
        n <= 4,
        slots.no_duplicates(),
        forall|j: int| 0 <= j < slots.len() ==> #[trigger] slots[j] < n && orders[slots[j] as int] == 0,
        forall|t: int| 0 <= t < n && orders[t] == 0 ==> #[trigger] slots.contains(t as usize),
    ensures
        slots.len() == empty_slots(orders, n),
    decreases n,
{
    if n > 0 {
        let last = (n - 1) as usize;
        if orders[n - 1] == 0 {
            assert(slots.contains(last));
            let p = choose|p: int| 0 <= p < slots.len() && slots[p] == last;
            let rest = slots.remove(p);
            assert forall|j: int| 0 <= j < rest.len() implies #[trigger] rest[j] < (n - 1) as nat && orders[rest[j] as int] == 0 by {
                if j < p {
                    assert(rest[j] == slots[j]);
                } else {
                    assert(rest[j] == slots[j + 1]);
                }
            }
            assert forall|t: int| 0 <= t < (n - 1) as nat && orders[t] == 0 implies #[trigger] rest.contains(t as usize) by {
                assert(slots.contains(t as usize));
                let q = choose|q: int| 0 <= q < slots.len() && slots[q] == t as usize;
                assert(q != p);
                if q < p {
                    assert(rest[q] == slots[q]);
                } else {
                    assert(rest[q - 1] == slots[q]);
                }
            }
            assert forall|a: int, b: int| 0 <= a < b < rest.len() implies rest[a] != rest[b] by {
                let a0 = if a < p { a } else { a + 1 };
                let b0 = if b < p { b } else { b + 1 };
                assert(rest[a] == slots[a0]);
                assert(rest[b] == slots[b0]);
            }
            assert(rest.no_duplicates());
            lemma_empty_slots_count(orders, rest, (n - 1) as nat);
            assert(empty_slots(orders, n) == empty_slots(orders, (n - 1) as nat) + 1);
        } else {
            assert forall|j: int| 0 <= j < slots.len() implies #[trigger] slots[j] < (n - 1) as nat && orders[slots[j] as int] == 0 by {
                if slots[j] == n - 1 {
                    assert(orders[n - 1] == 0);
                }
            }
            lemma_empty_slots_count(orders, slots, (n - 1) as nat);
            assert(empty_slots(orders, n) == empty_slots(orders, (n - 1) as nat));
        }
    } else {
        if slots.len() > 0 {
            assert(slots[0] < n);
        }
    }
}

impl Room {
    /// Records the league of each member (see `league_entries`).
    pub fn init_league_map(&mut self)
        ensures
            final(self).battle_data == (BattleData { leave_map: final(self).battle_data.leave_map, ..old(self).battle_data }),
            final(self).battle_data.leave_map@ == league_entries(old(self).battle_data.leave_map@, old(self).members@, old(self).members@.len()),
            final(self).members == old(self).members,
            final(self).state == old(self).state,
    {
        let mut k: usize = 0;
        while k < self.members.len()
            invariant
                k <= self.members@.len(),
                self.members == old(self).members,
                self.state == old(self).state,
                self.battle_data == (BattleData { leave_map: self.battle_data.leave_map, ..old(self).battle_data }),
                self.battle_data.leave_map@ == league_entries(old(self).battle_data.leave_map@, self.members@, k as nat),
            decreases self.members@.len() - k,
        {
            let user_id = self.members[k].user_id;
            let league_id = self.members[k].league.get_league_id();
            set_league_entry(&mut self.battle_data.leave_map, user_id, league_id);
            k = k + 1;
        }
    }

    /// Gives each member without a slot in the turn order one of the empty
    /// slots, drawn at random (which one is left to chance); the turn starts
    /// at the first slot, or, where that one is empty, passes on from it
    /// (see `check_next_choice_index`); and the members start to choose
    /// their cells. The leagues of the members are recorded first (see
    /// `init_league_map`).
    pub fn init_turn_order(&mut self)
        requires
            forall|i: int| 0 <= i < old(self).members@.len() ==> #[trigger] old(self).members@[i].user_id != 0,
            unplaced_from(old(self).members@, old(self).battle_data.turn_orders@, 0) <= empty_slots(old(self).battle_data.turn_orders@, 4),
            exists|i: int| 0 <= i < old(self).members@.len() && stop_slot(old(self).battle_data.battle_player@, #[trigger] old(self).members@[i].user_id),
            players_have_cters(old(self).battle_data.battle_player@),
        ensures
            final(self).state == RoomState::ChoiceIndex,
            final(self).members == old(self).members,
            final(self).battle_data.leave_map@ == league_entries(old(self).battle_data.leave_map@, old(self).members@, old(self).members@.len()),
            final(self).battle_data.battle_player@ == old(self).battle_data.battle_player@,
            final(self).battle_data.tile_map == old(self).battle_data.tile_map,
            forall|i: int| 0 <= i < old(self).members@.len() ==> final(self).battle_data.turn_orders@.contains(#[trigger] old(self).members@[i].user_id),
            forall|s: int| 0 <= s < 4 && #[trigger] old(self).battle_data.turn_orders@[s] != 0
                ==> final(self).battle_data.turn_orders@[s] == old(self).battle_data.turn_orders@[s],
            forall|s: int| 0 <= s < 4 && #[trigger] final(self).battle_data.turn_orders@[s] != old(self).battle_data.turn_orders@[s]
                ==> old(self).battle_data.turn_orders@[s] == 0
                    && !old(self).battle_data.turn_orders@.contains(final(self).battle_data.turn_orders@[s])
                    && exists|i: int| 0 <= i < old(self).members@.len() && #[trigger] old(self).members@[i].user_id == final(self).battle_data.turn_orders@[s],
            forall|s: int, t: int| 0 <= s < t < 4 && final(self).battle_data.turn_orders@[s] != 0
                ==> #[trigger] final(self).battle_data.turn_orders@[s] != #[trigger] final(self).battle_data.turn_orders@[t]
                    || old(self).battle_data.turn_orders@[s] == final(self).battle_data.turn_orders@[s]
                        && old(self).battle_data.turn_orders@[t] == final(self).battle_data.turn_orders@[t],
            final(self).battle_data.next_turn_index < 4,
            final(self).battle_data.turn_orders@[0] != 0 ==> final(self).battle_data.next_turn_index == 0,
            stop_slot(final(self).battle_data.battle_player@, final(self).battle_data.turn_orders@[final(self).battle_data.next_turn_index as int])
                || final(self).battle_data.next_turn_index == 0,
    {
        self.init_league_map();
        let ghost o0 = self.battle_data.turn_orders@;
        let mut index_v: Vec<usize> = Vec::new();
        let mut s: usize = 0;
        while s < 4
            invariant
                s <= 4,
                self.battle_data.turn_orders@ == o0,
                index_v@.no_duplicates(),
                forall|j: int| 0 <= j < index_v@.len() ==> #[trigger] index_v@[j] < s && o0[index_v@[j] as int] == 0,
                forall|t: int| 0 <= t < s && o0[t] == 0 ==> #[trigger] index_v@.contains(t as usize),
            decreases 4 - s,
        {
            if self.battle_data.turn_orders[s] == 0 {
                proof {
                    assert(!index_v@.contains(s)) by {
                        if index_v@.contains(s) {
                            let j = choose|j: int| 0 <= j < index_v@.len() && index_v@[j] == s;
                            assert(index_v@[j] < s);
                        }
                    }
                }
                let ghost before = index_v@;
                index_v.push(s);
                proof {
                    assert(index_v@ == before.push(s));
                    assert forall|t: int| 0 <= t < s + 1 && o0[t] == 0 implies #[trigger] index_v@.contains(t as usize) by {
                        if t < s {
                            assert(before.contains(t as usize));
                            let q = choose|q: int| 0 <= q < before.len() && before[q] == t as usize;
                            assert(index_v@[q] == t as usize);
                        } else {
                            assert(index_v@[before.len() as int] == s);
                        }
                    }
                }
            }
            s = s + 1;
        }
        proof {
            lemma_empty_slots_count(o0, index_v@, 4);
        }
        let ghost bd1 = self.battle_data;
        let mut k: usize = 0;
        while k < self.members.len()
            invariant
                k <= self.members@.len(),
                self.members == old(self).members,
                forall|i: int| 0 <= i < self.members@.len() ==> #[trigger] self.members@[i].user_id != 0,
                self.state == old(self).state,
                self.battle_data == (BattleData { turn_orders: self.battle_data.turn_orders, ..bd1 }),
                index_v@.no_duplicates(),
                forall|j: int| 0 <= j < index_v@.len() ==> #[trigger] index_v@[j] < 4 && self.battle_data.turn_orders@[index_v@[j] as int] == 0,
                forall|t: int| 0 <= t < 4 && self.battle_data.turn_orders@[t] == 0 ==> #[trigger] index_v@.contains(t as usize),
                index_v@.len() == empty_slots(self.battle_data.turn_orders@, 4),
                unplaced_from(self.members@, self.battle_data.turn_orders@, k as int) <= index_v@.len(),
                forall|i: int| 0 <= i < k ==> self.battle_data.turn_orders@.contains(#[trigger] self.members@[i].user_id),
                forall|x: u32| x != 0 && o0.contains(x) ==> #[trigger] self.battle_data.turn_orders@.contains(x),
                forall|t: int| 0 <= t < 4 && #[trigger] o0[t] != 0 ==> self.battle_data.turn_orders@[t] == o0[t],
                forall|t: int| 0 <= t < 4 && #[trigger] self.battle_data.turn_orders@[t] != o0[t]
                    ==> o0[t] == 0 && !o0.contains(self.battle_data.turn_orders@[t])
                        && exists|i: int| 0 <= i < self.members@.len() && #[trigger] self.members@[i].user_id == self.battle_data.turn_orders@[t],
                forall|a: int, b: int| 0 <= a < b < 4 && self.battle_data.turn_orders@[a] != 0
                    ==> #[trigger] self.battle_data.turn_orders@[a] != #[trigger] self.battle_data.turn_orders@[b]
                        || o0[a] == self.battle_data.turn_orders@[a] && o0[b] == self.battle_data.turn_orders@[b],
            decreases self.members@.len() - k,
        {
            let member_id = self.members[k].user_id;
            let ghost o1 = self.battle_data.turn_orders@;
            if self.turn_order_contains(member_id) {
                proof {
                    assert(unplaced_from(self.members@, o1, k as int) == unplaced_from(self.members@, o1, k + 1));
                }
                k = k + 1;
                continue;
            }
            proof {
                assert(unplaced_from(self.members@, o1, k as int) == unplaced_from(self.members@, o1, k + 1) + 1);
            }
            let remove_index = random_index(index_v.len());
            let turn_order = index_v[remove_index];
            let ghost before = index_v@;
            proof {
                assert(before[remove_index as int] == turn_order);
                assert(o1[turn_order as int] == 0);
            }
            self.insert_turn_orders(turn_order, member_id);
            index_v.remove(remove_index);
            let ghost o2 = self.battle_data.turn_orders@;
            proof {
                let t = turn_order as int;
                let u = member_id;
                assert(o2 == o1.update(t, u));
                assert(index_v@ == before.remove(remove_index as int));
                lemma_empty_slots_fill(o1, t, u, 4);
                assert(o2[t] == u);
                assert(o2.contains(u));
                assert forall|x: u32| x != 0 && o1.contains(x) implies #[trigger] o2.contains(x) by {
                    let q = choose|q: int| 0 <= q < o1.len() && o1[q] == x;
                    assert(q != t);
                    assert(o2[q] == x);
                }
                lemma_unplaced_mono(self.members@, o1, o2, k + 1);
                assert forall|a: int, b: int| 0 <= a < b < index_v@.len() implies index_v@[a] != index_v@[b] by {
                    let a0 = if a < remove_index { a } else { a + 1 };
                    let b0 = if b < remove_index { b } else { b + 1 };
                    assert(index_v@[a] == before[a0]);
                    assert(index_v@[b] == before[b0]);
                }
                assert(index_v@.no_duplicates());
                assert forall|j: int| 0 <= j < index_v@.len() implies #[trigger] index_v@[j] < 4 && o2[index_v@[j] as int] == 0 by {
                    let j0 = if j < remove_index { j } else { j + 1 };
                    assert(index_v@[j] == before[j0]);
                    assert(j0 != remove_index);
                    assert(before[j0] != before[remove_index as int]);
                }
                assert forall|tt: int| 0 <= tt < 4 && o2[tt] == 0 implies #[trigger] index_v@.contains(tt as usize) by {
                    assert(tt != t);
                    assert(o1[tt] == 0);
                    assert(before.contains(tt as usize));
                    let q = choose|q: int| 0 <= q < before.len() && before[q] == tt as usize;
                    assert(q != remove_index);
                    if q < remove_index {
                        assert(index_v@[q] == tt as usize);
                    } else {
                        assert(index_v@[q - 1] == tt as usize);
                    }
                }
                assert forall|i: int| 0 <= i < k + 1 implies o2.contains(#[trigger] self.members@[i].user_id) by {
                    if i < k {
                        assert(o1.contains(self.members@[i].user_id));
                    }
                }
                assert forall|tt: int| 0 <= tt < 4 && #[trigger] o0[tt] != 0 implies o2[tt] == o0[tt] by {
                    assert(o1[tt] == o0[tt]);
                }
                assert forall|tt: int| 0 <= tt < 4 && #[trigger] o2[tt] != o0[tt] implies
                    o0[tt] == 0 && !o0.contains(o2[tt])
                        && exists|i: int| 0 <= i < self.members@.len() && #[trigger] self.members@[i].user_id == o2[tt] by {
                    if tt == t {
                        if o0[tt] != 0 {
                            assert(o1[tt] == o0[tt]);
                        }
                        if o0.contains(u) {
                            assert(o1.contains(u));
                        }
                        assert(self.members@[k as int].user_id == o2[tt]);
                    } else {
                        assert(o2[tt] == o1[tt]);
                    }
                }
                assert forall|a: int, b: int| 0 <= a < b < 4 && o2[a] != 0 implies
                    #[trigger] o2[a] != #[trigger] o2[b] || o0[a] == o2[a] && o0[b] == o2[b] by {
                    if a == t {
                        if o2[b] == u {
                            assert(o1[b] == u);
                            assert(o1.contains(u));
                        }
                    } else if b == t {
                        if o2[a] == u {
                            assert(o1[a] == u);
                            assert(o1.contains(u));
                        }
                    } else {
                        assert(o2[a] == o1[a] && o2[b] == o1[b]);
                    }
                }
            }
            k = k + 1;
        }
        let ghost o3 = self.battle_data.turn_orders@;
        self.set_next_turn_index(0);
        if self.battle_data.turn_orders[0] == 0 {
            proof {
                let i = choose|i: int| 0 <= i < old(self).members@.len()
                    && stop_slot(old(self).battle_data.battle_player@, #[trigger] old(self).members@[i].user_id);
                assert(o3.contains(self.members@[i].user_id));
                let w = choose|w: int| 0 <= w < o3.len() && o3[w] == self.members@[i].user_id;
                assert(stop_slot(self.battle_data.battle_player@, self.battle_data.turn_orders@[w]));
            }
            self.check_next_choice_index();
        }
        self.state = RoomState::ChoiceIndex;
    }
}

/// Takes the first player with user id `user_id` out of the list.
pub fn remove_player(ps: &mut Vec<BattlePlayer>, user_id: u32)
    ensures
        !has_player(old(ps)@, user_id) ==> final(ps)@ == old(ps)@,
        has_player(old(ps)@, user_id) ==> exists|i: int| #[trigger] first_player(old(ps)@, user_id, i)
            && final(ps)@ == old(ps)@.remove(i),
{
    match player_position(ps, user_id) {
        Some(i) => {
            ps.remove(i);
        },
        None => {},
    }
}

/// Taking a player out leaves the others found as they were.
proof fn lemma_removed_player(ps: Seq<BattlePlayer>, user_id: u32, i: int, uid: u32)
    requires
        first_player(ps, user_id, i),
        uid != user_id,
    ensures
        has_player(ps.remove(i), uid) == has_player(ps, uid),
        has_player(ps, uid) ==> player_of(ps.remove(i), uid) == player_of(ps, uid),
        stop_slot(ps.remove(i), uid) == stop_slot(ps, uid),
{
    let r = ps.remove(i);
    if has_player(ps, uid) {
        let k = choose|k: int| 0 <= k < ps.len() && #[trigger] ps[k].user_id == uid;
        assert(k != i);
        if k < i {
            assert(r[k] == ps[k]);
        } else {
            assert(r[k - 1] == ps[k]);
        }
        crate::battle::lemma_has_player_first(ps, uid);
        let a = choose|a: int| first_player(ps, uid, a);
        assert(a != i);
        let a1 = if a < i { a } else { a - 1 };
        assert(r[a1] == ps[a]);
        assert forall|j: int| 0 <= j < a1 implies #[trigger] r[j].user_id != uid by {
            if j < i {
                assert(r[j] == ps[j]);
            } else {
                assert(r[j] == ps[j + 1]);
            }
        }
        assert(first_player(r, uid, a1));
        lemma_first_player_unique(r, uid, a1, choose|b: int| first_player(r, uid, b));
        lemma_first_player_unique(ps, uid, a, choose|b: int| first_player(ps, uid, b));
    }
    if has_player(r, uid) {
        let k = choose|k: int| 0 <= k < r.len() && #[trigger] r[k].user_id == uid;
        if k < i {
            assert(ps[k] == r[k]);
        } else {
            assert(ps[k + 1] == r[k]);
        }
    }
}

impl Room {
    /// Member `user_id` left while cells are chosen (`index` is the slot
    /// it held in the turn order, and the cell of that number is freed too):
    /// its slot is emptied, its player is taken out, it leaves the cell it
    /// stood on. Where it was the one choosing, the battle starts if its
    /// slot was the last one (the turn then goes back to the first slot, and
    /// passes on where that one is empty), else the turn to choose passes
    /// on. Returns what the room does next: `None` where nothing more is to
    /// be done (also where the next turn is out of the order).
    pub fn handler_leave_choice_index(&mut self, user_id: u32, index: usize) -> (r: Option<RoomAction>)
        requires
            players_have_cters(old(self).battle_data.battle_player@),
            exists|s: int| 0 <= s < 4 && s != index && old(self).battle_data.turn_orders@[s] != user_id
                && #[trigger] stop_slot(old(self).battle_data.battle_player@, old(self).battle_data.turn_orders@[s]),
        ensures
            old(self).battle_data.next_turn_index >= 4 ==> r is None && *final(self) == *old(self),
            old(self).battle_data.next_turn_index < 4 ==> {
                let bd0 = old(self).battle_data;
                let bd1 = final(self).battle_data;
                let next_user = bd0.turn_orders@[bd0.next_turn_index as int];
                let orders1 = if index < 4 { bd0.turn_orders@.update(index as int, 0u32) } else { bd0.turn_orders@ };
                let cells0 = bd0.tile_map.map_cells@;
                let cells_mid = if index < cells0.len() { cells0.update(index as int, MapCell { user_id: 0, ..cells0[index as int] }) } else { cells0 };
                &&& bd1.turn_orders@ == orders1
                &&& user_removed(cells_mid, bd1.tile_map.map_cells@, user_id)
                &&& (has_player(bd0.battle_player@, user_id) ==> exists|i: int| #[trigger] first_player(bd0.battle_player@, user_id, i)
                    && bd1.battle_player@ == bd0.battle_player@.remove(i))
                &&& (!has_player(bd0.battle_player@, user_id) ==> bd1.battle_player@ == bd0.battle_player@)
                &&& final(self).members == old(self).members
                &&& if next_user != user_id {
                    r is None && bd1.next_turn_index == bd0.next_turn_index && final(self).state == old(self).state
                } else if bd0.turn_orders@[3] == user_id {
                    &&& r == Some(RoomAction::StartBattle)
                    &&& bd1.next_turn_index < 4
                    &&& (orders1[0] != 0 ==> bd1.next_turn_index == 0)
                    &&& (orders1[0] == 0 ==> stop_slot(bd1.battle_player@, orders1[bd1.next_turn_index as int]))
                    &&& final(self).state == RoomState::BattleStarted
                } else {
                    &&& r == Some(RoomAction::ChoiceIndexTask)
                    &&& bd1.next_turn_index < 4
                    &&& stop_slot(bd1.battle_player@, orders1[bd1.next_turn_index as int])
                    &&& final(self).state == if old(self).state != RoomState::BattleStarted && all_placed(bd1.battle_player@) {
                        RoomState::BattleStarted
                    } else {
                        old(self).state
                    }
                }
            },
    {
        let next_turn_user = match self.battle_data.get_turn_user(None) {
            Ok(u) => u,
            Err(_) => return None,
        };
        let ghost bd0 = self.battle_data;
        if index < self.battle_data.tile_map.map_cells.len() {
            self.battle_data.tile_map.map_cells[index].user_id = 0;
        }
        let last_order_user = self.battle_data.turn_orders[MEMBER_MAX - 1];
        self.remove_turn_orders(index);
        remove_player(&mut self.battle_data.battle_player, user_id);
        self.battle_data.tile_map.remove_user(user_id);
        let ghost ps1 = self.battle_data.battle_player@;
        proof {
            let s0 = choose|s: int| 0 <= s < 4 && s != index && bd0.turn_orders@[s] != user_id
                && #[trigger] stop_slot(bd0.battle_player@, bd0.turn_orders@[s]);
            let uid = bd0.turn_orders@[s0];
            assert(self.battle_data.turn_orders@[s0] == uid);
            if has_player(bd0.battle_player@, user_id) {
                let i = choose|i: int| #[trigger] first_player(bd0.battle_player@, user_id, i) && ps1 == bd0.battle_player@.remove(i);
                lemma_removed_player(bd0.battle_player@, user_id, i, uid);
                assert forall|j: int| 0 <= j < ps1.len() && player_alive(#[trigger] ps1[j])
                    implies has_cter(ps1[j].cters@, ps1[j].current_cter.0) by {
                    if j < i {
                        assert(ps1[j] == bd0.battle_player@[j]);
                    } else {
                        assert(ps1[j] == bd0.battle_player@[j + 1]);
                    }
                }
            }
            assert(stop_slot(ps1, self.battle_data.turn_orders@[s0]));
            assert(some_stop_slot(self.battle_data));
            assert(players_have_cters(ps1));
        }
        if next_turn_user != user_id {
            return None;
        }
        if last_order_user == user_id {
            let ghost bd_mid = self.battle_data;
            self.state = RoomState::BattleStarted;
            self.set_next_turn_index(0);
            if self.battle_data.turn_orders[0] == 0 {
                proof {
                    let w = choose|w: int| 0 <= w < 4 && #[trigger] stop_slot(bd_mid.battle_player@, bd_mid.turn_orders@[w]);
                    assert(stop_slot(self.battle_data.battle_player@, self.battle_data.turn_orders@[w]));
                }
                self.check_next_choice_index();
            }
            Some(RoomAction::StartBattle)
        } else {
            self.check_next_choice_index();
            Some(RoomAction::ChoiceIndexTask)
        }
    }
}

/// `i` is the first member with user id `user_id`.
pub open spec fn first_member(ms: Seq<Member>, user_id: u32, i: int) -> bool {
    &&& 0 <= i < ms.len()
    &&& ms[i].user_id == user_id
    &&& forall|j: int| 0 <= j < i ==> #[trigger] ms[j].user_id != user_id
}

impl Room {
    /// Member `user_id` gets one more penalty (see `PunishMatch::add_punish`);
    /// returns whether there is such a member, whose penalty is then to be
    /// sent on.
    pub fn add_punish(&mut self, user_id: u32) -> (r: bool)
        requires
            forall|i: int| 0 <= i < old(self).members@.len() && #[trigger] old(self).members@[i].user_id == user_id
                ==> old(self).members@[i].punish_match.punish_id < u8::MAX,
        ensures
            r == exists|i: int| 0 <= i < old(self).members@.len() && #[trigger] old(self).members@[i].user_id == user_id,
            r ==> exists|i: int| #[trigger] first_member(old(self).members@, user_id, i)
                && final(self).members@.len() == old(self).members@.len()
                && (forall|j: int| 0 <= j < old(self).members@.len() && j != i ==> #[trigger] final(self).members@[j] == old(self).members@[j])
                && final(self).members@[i].punish_match.punish_id == old(self).members@[i].punish_match.punish_id + 1
                && final(self).members@[i].user_id == user_id,
            !r ==> final(self).members == old(self).members,
            final(self).battle_data == old(self).battle_data,
            final(self).state == old(self).state,
    {
        let mut i: usize = 0;
        while i < self.members.len()
            invariant
                i <= self.members@.len(),
                self.members == old(self).members,
                self.battle_data == old(self).battle_data,
                self.state == old(self).state,
                forall|j: int| 0 <= j < self.members@.len() && #[trigger] self.members@[j].user_id == user_id
                    ==> self.members@[j].punish_match.punish_id < u8::MAX,
                forall|j: int| 0 <= j < i ==> #[trigger] self.members@[j].user_id != user_id,
            decreases self.members@.len() - i,
        {
            if self.members[i].user_id == user_id {
                let ghost ms0 = self.members@;
                let mut m = self.members.remove(i);
                m.add_punish();
                self.members.insert(i, m);
                proof {
                    assert(first_member(ms0, user_id, i as int));
                    assert forall|j: int| 0 <= j < ms0.len() && j != i implies #[trigger] self.members@[j] == ms0[j] by {
                        if j < i {
                            assert(self.members@[j] == ms0[j]);
                        } else {
                            assert(self.members@[j] == ms0[j]);
                        }
                    }
                }
                return true;
            }
            i = i + 1;
        }
        false
    }

    /// A member leaving a matched battle it is still in is penalised (see
    /// `add_punish`); returns whether it was.
    pub fn handler_punish(&mut self, user_id: u32) -> (r: bool)
        requires
            old(self).room_type == RoomType::OneVOneVOneVOneMatch ==> has_player(old(self).battle_data.battle_player@, user_id),
            forall|i: int| 0 <= i < old(self).members@.len() && #[trigger] old(self).members@[i].user_id == user_id
                ==> old(self).members@[i].punish_match.punish_id < u8::MAX,
        ensures
            r == (old(self).room_type == RoomType::OneVOneVOneVOneMatch
                && player_alive(player_of(old(self).battle_data.battle_player@, user_id))
                && exists|i: int| 0 <= i < old(self).members@.len() && #[trigger] old(self).members@[i].user_id == user_id),
            !r ==> final(self).members == old(self).members,
            final(self).battle_data == old(self).battle_data,
    {
        if self.room_type != RoomType::OneVOneVOneVOneMatch {
            return false;
        }
        let pos = player_position(&self.battle_data.battle_player, user_id).unwrap();
        proof {
            lemma_first_player_unique(self.battle_data.battle_player@, user_id, pos as int,
                choose|q: int| first_player(self.battle_data.battle_player@, user_id, q));
        }
        if self.battle_data.battle_player[pos].is_died() {
            return false;
        }
        self.add_punish(user_id)
    }
}

/// Two player lists whose players have the same user ids and states stop
/// the turn at the same slots and find the same players.
proof fn lemma_same_ids(ps0: Seq<BattlePlayer>, ps1: Seq<BattlePlayer>)
    requires
        ps0.len() == ps1.len(),
        forall|j: int| 0 <= j < ps0.len() ==> (#[trigger] ps1[j]).user_id == ps0[j].user_id && ps1[j].status == ps0[j].status,
    ensures
        forall|uid: u32| #[trigger] has_player(ps1, uid) == has_player(ps0, uid),
        forall|uid: u32, k: int| #[trigger] first_player(ps1, uid, k) == first_player(ps0, uid, k),
        forall|uid: u32| has_player(ps0, uid) ==> (#[trigger] player_of(ps1, uid)).status == player_of(ps0, uid).status,
        forall|uid: u32| #[trigger] stop_slot(ps1, uid) == stop_slot(ps0, uid),
{
    assert forall|uid: u32| #[trigger] has_player(ps1, uid) == has_player(ps0, uid) by {
        if has_player(ps0, uid) {
            let k = choose|k: int| 0 <= k < ps0.len() && #[trigger] ps0[k].user_id == uid;
            assert(ps1[k].user_id == uid);
        }
        if has_player(ps1, uid) {
            let k = choose|k: int| 0 <= k < ps1.len() && #[trigger] ps1[k].user_id == uid;
            assert(ps0[k].user_id == uid);
        }
    }
    assert forall|uid: u32, k: int| #[trigger] first_player(ps1, uid, k) == first_player(ps0, uid, k) by {
        if first_player(ps0, uid, k) {
            assert forall|j: int| 0 <= j < k implies #[trigger] ps1[j].user_id != uid by {
                assert(ps0[j].user_id != uid);
            }
        }
        if first_player(ps1, uid, k) {
            assert forall|j: int| 0 <= j < k implies #[trigger] ps0[j].user_id != uid by {
                assert(ps1[j].user_id != uid);
            }
        }
    }
    assert forall|uid: u32| has_player(ps0, uid) implies (#[trigger] player_of(ps1, uid)).status == player_of(ps0, uid).status by {
        crate::battle::lemma_has_player_first(ps0, uid);
        let a = choose|a: int| first_player(ps0, uid, a);
        let b = choose|b: int| first_player(ps1, uid, b);
        assert(first_player(ps1, uid, a));
        assert(first_player(ps0, uid, b));
        lemma_first_player_unique(ps0, uid, a, b);
    }
    assert forall|uid: u32| #[trigger] stop_slot(ps1, uid) == stop_slot(ps0, uid) by {
        if has_player(ps0, uid) {
            assert(player_of(ps1, uid).status == player_of(ps0, uid).status);
        }
    }
}

} // verus!
