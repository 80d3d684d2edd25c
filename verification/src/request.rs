//! The checks a battle server makes on its players' requests before it acts
//! on them, and the bookkeeping of its rooms.

use vstd::prelude::*;
use std::collections::HashMap;
use crate::battle::{BattleData, BattleError, has_player, player_alive, player_of, player_position, first_player, lemma_first_player_unique, stop_slot};
use crate::battle_enum::ActionType;
use crate::battle_helper::{ChoiceError, choice_error, current_cter_of};
use crate::battle_player::{BattlePlayer, BattleStatus, first_cter, has_cter};
use crate::battle_skill::Skill;
use crate::mission::{MissionTemp, player_mission_candidates};
use crate::robot_open_cell::lemma_current_cter;
use crate::room::RoomState;
use crate::room_flow::{Room, RoomAction, players_have_cters, some_stop_slot};

verus! {

/// Why a request is refused.
#[derive(Debug, Clone, Copy, PartialEq, Eq, Structural)]
pub enum RequestError {
    /// it is not this player's turn
    NotYourTurn(u32),
    /// the cell asked for cannot be chosen
    Choice(ChoiceError),
    /// the player already stands on a cell
    AlreadyChosen(u32),
    /// no cell show is waiting for this value
    NoShowCell(u32),
    /// the player may not end the turn yet
    CanNotEndTurn(u32),
    /// the turn order has no next slot
    Turn(BattleError),
}

/// Whether player `user_id` may act now: it is in the battle, still in it,
/// stands on a cell, and the turn is its own.
pub open spec fn user_may_act(rm: Room, user_id: u32) -> bool {
    let bd = rm.battle_data;
    &&& has_player(bd.battle_player@, user_id)
    &&& player_alive(player_of(bd.battle_player@, user_id))
    &&& current_cter_of(player_of(bd.battle_player@, user_id)).index_data.map_cell_index is Some
    &&& bd.next_turn_index < 4
    &&& bd.turn_orders@[bd.next_turn_index as int] == user_id
}

/// Whether player `user_id` may act now (see `user_may_act`).
pub fn check_user(rm: &Room, user_id: u32) -> (r: bool)
    requires
        has_player(rm.battle_data.battle_player@, user_id) && player_alive(player_of(rm.battle_data.battle_player@, user_id))
            ==> has_cter(player_of(rm.battle_data.battle_player@, user_id).cters@,
                player_of(rm.battle_data.battle_player@, user_id).current_cter.0),
    ensures
        r == user_may_act(*rm, user_id),
{
    let p = match rm.battle_data.get_battle_player(Some(user_id), true) {
        Ok(p) => p,
        Err(_) => return false,
    };
    let c = p.get_current_cter();
    proof {
        let i = choose|i: int| first_cter(p.cters@, p.current_cter.0, i) && *c == #[trigger] p.cters@[i];
        lemma_current_cter(*p, i);
    }
    if c.index_data.map_cell_index.is_none() {
        return false;
    }
    match rm.battle_data.get_turn_user(None) {
        Ok(next_user) => next_user == user_id,
        Err(_) => false,
    }
}

/// What a request to act is, once checked: the room must be in battle, the
/// player must be able to act (see `check_user`), and the kind must be one
/// a player may ask for (not `Invalid` nor `Buff`).
pub fn action(rm: &Room, user_id: u32, action_type: u8) -> (r: Option<ActionType>)
    requires
        has_player(rm.battle_data.battle_player@, user_id) && player_alive(player_of(rm.battle_data.battle_player@, user_id))
            ==> has_cter(player_of(rm.battle_data.battle_player@, user_id).cters@,
                player_of(rm.battle_data.battle_player@, user_id).current_cter.0),
        rm.state == RoomState::BattleStarted && user_may_act(*rm, user_id) ==> action_type <= 7,
    ensures
        r is Some <==> rm.state == RoomState::BattleStarted && user_may_act(*rm, user_id)
            && action_type != 0 && action_type != 6,
        r matches Some(t) ==> t.code() == action_type,
{
    if rm.state != RoomState::BattleStarted {
        return None;
    }
    if !check_user(rm, user_id) {
        return None;
    }
    let t = ActionType::try_from_u8(action_type).unwrap();
    match t {
        ActionType::Invalid => None,
        ActionType::Buff => None,
        _ => Some(t),
    }
}

/// The end of a cell show: where the player's actions are locked by the
/// show of value `v`, they are unlocked and the player may end the turn.
pub fn unlock_oper(rm: &mut Room, user_id: u32, v: u32) -> (r: Result<(), RequestError>)
    requires
        has_player(old(rm).battle_data.battle_player@, user_id),
    ensures
        ({
            let ps0 = old(rm).battle_data.battle_player@;
            let p = player_of(ps0, user_id);
            if p.status.locked_oper == 0 || p.status.locked_oper != v {
                r == Err::<(), RequestError>(RequestError::NoShowCell(v)) && *final(rm) == *old(rm)
            } else {
                &&& r is Ok
                &&& exists|i: int| #[trigger] first_player(ps0, user_id, i)
                    && final(rm).battle_data.battle_player@ == ps0.update(i, unlocked_player(p))
                &&& final(rm).battle_data == (BattleData { battle_player: final(rm).battle_data.battle_player, ..old(rm).battle_data })
                &&& final(rm).state == old(rm).state
                &&& final(rm).members == old(rm).members
            }
        }),
{
    let pos = player_position(&rm.battle_data.battle_player, user_id).unwrap();
    proof {
        lemma_first_player_unique(rm.battle_data.battle_player@, user_id, pos as int,
            choose|q: int| first_player(rm.battle_data.battle_player@, user_id, q));
    }
    let locked = rm.battle_data.battle_player[pos].status.locked_oper;
    if locked == 0 || locked != v {
        return Err(RequestError::NoShowCell(v));
    }
    let ghost ps0 = rm.battle_data.battle_player@;
    let mut p = rm.battle_data.battle_player.remove(pos);
    p.status.locked_oper = 0;
    p.status.is_can_end_turn = true;
    rm.battle_data.battle_player.insert(pos, p);
    proof {
        assert(rm.battle_data.battle_player@ =~= ps0.update(pos as int, unlocked_player(ps0[pos as int])));
    }
    Ok(())
}

/// Player `p` with its actions unlocked and allowed to end its turn.
pub open spec fn unlocked_player(p: BattlePlayer) -> BattlePlayer {
    BattlePlayer { status: BattleStatus { locked_oper: 0, is_can_end_turn: true, ..p.status }, ..p }
}

/// Whether a stance request of player `user_id` with skill `skill_id` and
/// kind `pos_type` is sent on to the room: the room is in battle, the
/// player is in it, its character has the skill, and the kind is a stance
/// kind (1 or 2).
pub fn pos(rm: &Room, user_id: u32, skill_id: u32, pos_type: u32) -> (r: bool)
    requires
        has_player(rm.battle_data.battle_player@, user_id)
            ==> has_cter(player_of(rm.battle_data.battle_player@, user_id).cters@,
                player_of(rm.battle_data.battle_player@, user_id).current_cter.0),
    ensures
        r == (rm.state == RoomState::BattleStarted
            && has_player(rm.battle_data.battle_player@, user_id)
            && (exists|k: int| 0 <= k < current_cter_of(player_of(rm.battle_data.battle_player@, user_id)).skills@.len()
                && #[trigger] current_cter_of(player_of(rm.battle_data.battle_player@, user_id)).skills@[k].id == skill_id)
            && 1 <= pos_type <= 2),
{
    if rm.state != RoomState::BattleStarted {
        return false;
    }
    let p = match rm.battle_data.get_battle_player(Some(user_id), false) {
        Ok(p) => p,
        Err(_) => return false,
    };
    let c = p.get_current_cter();
    proof {
        let i = choose|i: int| first_cter(p.cters@, p.current_cter.0, i) && *c == #[trigger] p.cters@[i];
        lemma_current_cter(*p, i);
    }
    let mut found = false;
    let mut k: usize = 0;
    while k < c.skills.len()
        invariant
            k <= c.skills@.len(),
            found == exists|j: int| 0 <= j < k && #[trigger] c.skills@[j].id == skill_id,
        decreases c.skills@.len() - k,
    {
        if c.skills[k].id == skill_id {
            found = true;
        }
        k = k + 1;
    }
    if !found {
        return false;
    }
    pos_type >= 1 && pos_type <= 2
}

/// The configuration of an emoji.
#[derive(Debug, Clone, Copy, PartialEq, Eq, Structural)]
pub struct EmojiTemp {
    pub id: u32,
    /// the condition that unlocks it, 0 for none
    pub condition: u32,
    /// the character it belongs to, 0 for any
    pub cter_id: u32,
}

/// `i` is the first emoji configuration with id `id`.
pub open spec fn first_emoji(temps: Seq<EmojiTemp>, id: u32, i: int) -> bool {
    &&& 0 <= i < temps.len()
    &&& temps[i].id == id
    &&& forall|j: int| 0 <= j < i ==> #[trigger] temps[j].id != id
}

/// Whether player `user_id` may send emoji `emoji_id` (looked up in
/// `temps`): the player is in the room, the emoji is configured, needs no
/// unlocking, and belongs to any character or to the player's.
#[verifier::loop_isolation(false)]
pub fn emoji(rm: &Room, user_id: u32, emoji_id: u32, temps: &Vec<EmojiTemp>) -> (r: bool)
    ensures
        r == (has_player(rm.battle_data.battle_player@, user_id)
            && exists|i: int| #[trigger] first_emoji(temps@, emoji_id, i) && temps@[i].condition == 0
                && (temps@[i].cter_id == 0 || temps@[i].cter_id == player_of(rm.battle_data.battle_player@, user_id).current_cter.0)),
{
    let p = match rm.battle_data.get_battle_player(Some(user_id), false) {
        Ok(p) => p,
        Err(_) => return false,
    };
    let cter_id = p.current_cter.0;
    let mut i: usize = 0;
    while i < temps.len()
        invariant
            i <= temps@.len(),
            forall|j: int| 0 <= j < i ==> #[trigger] temps@[j].id != emoji_id,
        decreases temps@.len() - i,
    {
        let t = temps[i];
        if t.id == emoji_id {
            proof {
                assert(first_emoji(temps@, emoji_id, i as int));
                assert forall|k: int| #[trigger] first_emoji(temps@, emoji_id, k) implies k == i by {
                    if k < i {
                        assert(temps@[k].id != emoji_id);
                    } else if k > i {
                        assert(temps@[i as int].id != emoji_id);
                    }
                }
            }
            if t.condition != 0 {
                return false;
            }
            if t.cter_id > 0 && t.cter_id != cter_id {
                return false;
            }
            return true;
        }
        i = i + 1;
    }
    false
}

/// Player `user_id` chose cell `index` to start on: refused where it is
/// not the player's turn, where the cell cannot be chosen (it must be a
/// cell in use and not the world cell), or where the player already
/// stands on a cell; else the room records the choice (see
/// `Room::choice_index`) and what it does next is returned.
pub fn choice_index(room: &mut Room, user_id: u32, index: u32, no_condition: &Vec<MissionTemp>) -> (r: Result<Option<RoomAction>, RequestError>)
    requires
        has_player(old(room).battle_data.battle_player@, user_id) ==> {
            let p = player_of(old(room).battle_data.battle_player@, user_id);
            &&& has_cter(p.cters@, p.current_cter.0)
            &&& players_have_cters(old(room).battle_data.battle_player@)
            &&& some_stop_slot(old(room).battle_data)
            &&& player_mission_candidates(old(room).battle_data, user_id, no_condition@).len() > 0
        },
        old(room).battle_data.next_turn_index < 4 && old(room).battle_data.turn_orders@[old(room).battle_data.next_turn_index as int] == user_id
            ==> has_player(old(room).battle_data.battle_player@, user_id),
    ensures
        !(old(room).battle_data.next_turn_index < 4 && old(room).battle_data.turn_orders@[old(room).battle_data.next_turn_index as int] == user_id)
            ==> r == Err::<Option<RoomAction>, RequestError>(RequestError::NotYourTurn(user_id)) && *final(room) == *old(room),
        old(room).battle_data.next_turn_index < 4 && old(room).battle_data.turn_orders@[old(room).battle_data.next_turn_index as int] == user_id
            ==> match choice_error(old(room).battle_data.tile_map.map_cells@, index as int, (false, false, false, true, false, false)) {
                Some(e) => r == Err::<Option<RoomAction>, RequestError>(RequestError::Choice(e)) && *final(room) == *old(room),
                None => if current_cter_of(player_of(old(room).battle_data.battle_player@, user_id)).index_data.map_cell_index is Some {
                    r == Err::<Option<RoomAction>, RequestError>(RequestError::AlreadyChosen(user_id)) && *final(room) == *old(room)
                } else {
                    r matches Ok(a) && a is Some
                        && final(room).battle_data.tile_map.map_cells@[index as int].user_id == user_id
                },
            },
{
    if !room.is_can_choice_index_now(user_id) {
        return Err(RequestError::NotYourTurn(user_id));
    }
    match room.battle_data.check_choice_index(index as usize, false, false, false, true, false, false) {
        Err(e) => return Err(RequestError::Choice(e)),
        Ok(()) => {},
    }
    let pos = player_position(&room.battle_data.battle_player, user_id).unwrap();
    proof {
        lemma_first_player_unique(room.battle_data.battle_player@, user_id, pos as int,
            choose|q: int| first_player(room.battle_data.battle_player@, user_id, q));
    }
    let c = room.battle_data.battle_player[pos].get_current_cter();
    proof {
        let p = room.battle_data.battle_player@[pos as int];
        let i = choose|i: int| first_cter(p.cters@, p.current_cter.0, i) && *c == #[trigger] p.cters@[i];
        lemma_current_cter(p, i);
    }
    if c.map_cell_index_is_choiced() {
        return Err(RequestError::AlreadyChosen(user_id));
    }
    let res = room.choice_index(user_id, index, no_condition);
    Ok(res)
}

/// What follows a player's end of turn.
#[derive(Debug, Clone, Copy, PartialEq, Eq, Structural)]
pub enum SkipTurn {
    /// the map is refreshed; the turn already passed on to the next player
    RefreshMap,
    /// the battle goes on to its next turn
    NextTurn,
}

/// Player `user_id` ends its turn: refused where the turn order has no next
/// slot, where the turn is not the player's, where it is not in the battle,
/// or where it may not end the turn yet. Where the map must be refreshed
/// (see `BattleData::check_refresh_map`), the turn passes on (see
/// `BattleData::choice_index_next_turn`) and the map is to be refreshed;
/// else the battle goes on to its next turn.
pub fn skip_turn(rm: &mut Room, user_id: u32) -> (r: Result<SkipTurn, RequestError>)
    requires
        some_stop_slot(old(rm).battle_data),
    ensures
        old(rm).battle_data.next_turn_index >= 4 ==> r == Err::<SkipTurn, RequestError>(RequestError::Turn(BattleError::NoTurnOrder(old(rm).battle_data.next_turn_index)))
            && *final(rm) == *old(rm),
        old(rm).battle_data.next_turn_index < 4 ==> {
            let bd = old(rm).battle_data;
            if bd.turn_orders@[bd.next_turn_index as int] != user_id {
                r == Err::<SkipTurn, RequestError>(RequestError::NotYourTurn(user_id)) && *final(rm) == *old(rm)
            } else if !has_player(bd.battle_player@, user_id) {
                r == Err::<SkipTurn, RequestError>(RequestError::Turn(BattleError::NoPlayer(user_id))) && *final(rm) == *old(rm)
            } else if !player_of(bd.battle_player@, user_id).status.is_can_end_turn {
                r == Err::<SkipTurn, RequestError>(RequestError::CanNotEndTurn(user_id)) && *final(rm) == *old(rm)
            } else if crate::battle::alive_count(bd.battle_player@) >= 2 && bd.tile_map.un_pair_map@.len() <= 2 {
                &&& r == Ok::<SkipTurn, RequestError>(SkipTurn::RefreshMap)
                &&& final(rm).battle_data == (BattleData { next_turn_index: final(rm).battle_data.next_turn_index, ..bd })
                &&& final(rm).battle_data.next_turn_index < 4
                &&& stop_slot(bd.battle_player@, bd.turn_orders@[final(rm).battle_data.next_turn_index as int])
                &&& final(rm).state == old(rm).state
            } else {
                r == Ok::<SkipTurn, RequestError>(SkipTurn::NextTurn) && *final(rm) == *old(rm)
            }
        },
{
    let next_user = match rm.battle_data.get_turn_user(None) {
        Ok(u) => u,
        Err(e) => return Err(RequestError::Turn(e)),
    };
    if next_user != user_id {
        return Err(RequestError::NotYourTurn(user_id));
    }
    let pos = match player_position(&rm.battle_data.battle_player, user_id) {
        Some(p) => p,
        None => return Err(RequestError::Turn(BattleError::NoPlayer(user_id))),
    };
    proof {
        lemma_first_player_unique(rm.battle_data.battle_player@, user_id, pos as int,
            choose|q: int| first_player(rm.battle_data.battle_player@, user_id, q));
    }
    if !rm.battle_data.battle_player[pos].get_is_can_end_turn() {
        return Err(RequestError::CanNotEndTurn(user_id));
    }
    if rm.battle_data.check_refresh_map() {
        let _ = rm.battle_data.choice_index_next_turn();
        Ok(SkipTurn::RefreshMap)
    } else {
        Ok(SkipTurn::NextTurn)
    }
}

/// The rooms of a battle server and the room of each player.
pub struct BattleMgr {
    /// the room id of each player
    pub player_room: HashMap<u32, u32>,
    pub rooms: Vec<Room>,
}

/// `i` is the first room with id `room_id`.
pub open spec fn first_room(rooms: Seq<Room>, room_id: u32, i: int) -> bool {
    &&& 0 <= i < rooms.len()
    &&& rooms[i].id == room_id
    &&& forall|j: int| 0 <= j < i ==> #[trigger] rooms[j].id != room_id
}

/// The room of player `user_id`, if it has one.
pub open spec fn room_of(m: Map<u32, u32>, rooms: Seq<Room>, user_id: u32) -> Option<int> {
    if m.contains_key(user_id) && exists|i: int| #[trigger] first_room(rooms, m[user_id], i) {
        Some(choose|i: int| #[trigger] first_room(rooms, m[user_id], i))
    } else {
        None
    }
}

fn room_position(rooms: &Vec<Room>, room_id: u32) -> (r: Option<usize>)
    ensures
        r is None <==> !(exists|i: int| #[trigger] first_room(rooms@, room_id, i)),
        r matches Some(i) ==> first_room(rooms@, room_id, i as int)
            && forall|k: int| #[trigger] first_room(rooms@, room_id, k) ==> k == i,
{
    let mut i: usize = 0;
    while i < rooms.len()
        invariant
            i <= rooms@.len(),
            forall|j: int| 0 <= j < i ==> #[trigger] rooms@[j].id != room_id,
        decreases rooms@.len() - i,
    {
        if rooms[i].id == room_id {
            proof {
                assert(first_room(rooms@, room_id, i as int));
                assert forall|k: int| #[trigger] first_room(rooms@, room_id, k) implies k == i by {
                    if k < i {
                        assert(rooms@[k].id != room_id);
                    } else if k > i {
                        assert(rooms@[i as int].id != room_id);
                    }
                }
            }
            return Some(i);
        }
        i = i + 1;
    }
    proof {
        if exists|k: int| #[trigger] first_room(rooms@, room_id, k) {
            let k = choose|k: int| #[trigger] first_room(rooms@, room_id, k);
            assert(rooms@[k].id != room_id);
        }
    }
    None
}

/// `m` without the members of `ms`.
pub open spec fn members_removed(m: Map<u32, u32>, ms: Seq<crate::room_flow::Member>) -> Map<u32, u32>
    decreases ms.len(),
{
    if ms.len() == 0 {
        m
    } else {
        members_removed(m, ms.drop_last()).remove(ms.last().user_id)
    }
}

/// `m` with each member of `ms` in room `room_id`.
pub open spec fn members_added(m: Map<u32, u32>, ms: Seq<crate::room_flow::Member>, room_id: u32) -> Map<u32, u32>
    decreases ms.len(),
{
    if ms.len() == 0 {
        m
    } else {
        members_added(m, ms.drop_last(), room_id).insert(ms.last().user_id, room_id)
    }
}

impl BattleMgr {
    /// No room and no player.
    pub fn new() -> (r: BattleMgr)
        ensures
            r.player_room@ == Map::<u32, u32>::empty(),
            r.rooms@.len() == 0,
    {
        BattleMgr { player_room: HashMap::new(), rooms: Vec::new() }
    }

    /// The room of player `user_id` (see `room_of`).
    pub fn get_room_ref(&self, user_id: u32) -> (r: Option<&Room>)
        ensures
            match room_of(self.player_room@, self.rooms@, user_id) {
                Some(i) => r == Some(&self.rooms@[i]),
                None => r is None,
            },
    {
        broadcast use vstd::std_specs::hash::group_hash_axioms;
        let room_id = match self.player_room.get(&user_id) {
            Some(id) => *id,
            None => return None,
        };
        match room_position(&self.rooms, room_id) {
            Some(i) => Some(&self.rooms[i]),
            None => None,
        }
    }

    /// A room started: its members are recorded in it, and it is kept.
    pub fn add_room(&mut self, room: Room)
        ensures
            final(self).rooms@ == old(self).rooms@.push(room),
            final(self).player_room@ == members_added(old(self).player_room@, room.members@, room.id),
    {
        broadcast use vstd::std_specs::hash::group_hash_axioms;
        let ghost m0 = self.player_room@;
        let mut k: usize = 0;
        while k < room.members.len()
            invariant
                k <= room.members@.len(),
                self.rooms@ == old(self).rooms@,
                self.player_room@ == members_added(m0, room.members@.take(k as int), room.id),
            decreases room.members@.len() - k,
        {
            proof {
                assert(room.members@.take(k + 1).drop_last() =~= room.members@.take(k as int));
            }
            self.player_room.insert(room.members[k].user_id, room.id);
            k = k + 1;
        }
        proof {
            assert(room.members@.take(room.members@.len() as int) =~= room.members@);
        }
        self.rooms.push(room);
    }

    /// Room `room_id` is done: every room with that id is dropped, and so
    /// is the room of each of their members. The other rooms stay, in their
    /// order, and so do the rooms of the other players.
    pub fn rm_room(&mut self, room_id: u32)
        ensures
            final(self).rooms@ == rooms_kept(old(self).rooms@, room_id),
            final(self).player_room@ == rooms_members_removed(old(self).player_room@, old(self).rooms@, room_id),
            forall|k: int| 0 <= k < final(self).rooms@.len() ==> #[trigger] final(self).rooms@[k].id != room_id,
            forall|u: u32| #[trigger] final(self).player_room@.contains_key(u) <==> (old(self).player_room@.contains_key(u)
                && !member_of_room(old(self).rooms@, room_id, u)),
            forall|u: u32| #[trigger] final(self).player_room@.contains_key(u) ==> final(self).player_room@[u]
                == old(self).player_room@[u],
    {
        broadcast use vstd::std_specs::hash::group_hash_axioms;
        let ghost rooms0 = self.rooms@;
        let ghost m0 = self.player_room@;
        let mut i: usize = 0;
        let ghost mut j: int = 0;
        while i < self.rooms.len()
            invariant
                0 <= j <= rooms0.len(),
                i == rooms_kept(rooms0.take(j), room_id).len(),
                self.rooms@ == rooms_kept(rooms0.take(j), room_id) + rooms0.skip(j),
                self.player_room@ == rooms_members_removed(m0, rooms0.take(j), room_id),
            decreases self.rooms@.len() - i,
        {
            proof {
                assert(rooms0.take(j + 1).drop_last() =~= rooms0.take(j));
                assert(rooms0.take(j + 1).last() == rooms0[j]);
                assert(self.rooms@[i as int] == rooms0[j]);
            }
            if self.rooms[i].id == room_id {
                let room = self.rooms.remove(i);
                proof {
                    assert(rooms_kept(rooms0.take(j + 1), room_id) == rooms_kept(rooms0.take(j), room_id));
                    assert(self.rooms@ =~= rooms_kept(rooms0.take(j + 1), room_id) + rooms0.skip(j + 1));
                }
                let ghost mid = self.player_room@;
                let ghost kept = self.rooms@;
                let mut k: usize = 0;
                while k < room.members.len()
                    invariant
                        k <= room.members@.len(),
                        self.rooms@ == kept,
                        self.player_room@ == members_removed(mid, room.members@.take(k as int)),
                    decreases room.members@.len() - k,
                {
                    proof {
                        assert(room.members@.take(k + 1).drop_last() =~= room.members@.take(k as int));
                    }
                    self.player_room.remove(&room.members[k].user_id);
                    k = k + 1;
                }
                proof {
                    assert(room.members@.take(room.members@.len() as int) =~= room.members@);
                    j = j + 1;
                }
            } else {
                proof {
                    assert(self.rooms@ =~= rooms_kept(rooms0.take(j + 1), room_id) + rooms0.skip(j + 1));
                    j = j + 1;
                }
                i = i + 1;
            }
        }
        proof {
            assert(j == rooms0.len());
            assert(rooms0.take(j) =~= rooms0);
            assert(rooms0.skip(j).len() == 0);
            assert(self.rooms@ =~= rooms_kept(rooms0, room_id));
            lemma_rooms_kept(rooms0, room_id);
            lemma_rooms_members_removed(m0, rooms0, room_id);
        }
    }
}

/// Once room `room_id` is removed (see `BattleMgr::rm_room`), no player
/// finds a room with that id, and its members find no room at all.
pub proof fn law_removed_room_found_by_nobody(m0: Map<u32, u32>, rooms0: Seq<Room>, room_id: u32, u: u32)
    ensures
        ({
            let m1 = rooms_members_removed(m0, rooms0, room_id);
            let rooms1 = rooms_kept(rooms0, room_id);
            &&& room_of(m1, rooms1, u) matches Some(i) ==> rooms1[i].id != room_id
            &&& member_of_room(rooms0, room_id, u) ==> room_of(m1, rooms1, u) is None
        }),
{
    lemma_rooms_kept(rooms0, room_id);
    lemma_rooms_members_removed(m0, rooms0, room_id);
    let m1 = rooms_members_removed(m0, rooms0, room_id);
    let rooms1 = rooms_kept(rooms0, room_id);
    if m1.contains_key(u) && exists|i: int| #[trigger] first_room(rooms1, m1[u], i) {
        let i = choose|i: int| #[trigger] first_room(rooms1, m1[u], i);
        assert(rooms1[i].id != room_id);
    }
}

/// The rooms of `rooms` whose id is not `room_id`, in their order.
pub open spec fn rooms_kept(rooms: Seq<Room>, room_id: u32) -> Seq<Room>
    decreases rooms.len(),
{
    if rooms.len() == 0 {
        rooms
    } else {
        let before = rooms_kept(rooms.drop_last(), room_id);
        if rooms.last().id == room_id { before } else { before.push(rooms.last()) }
    }
}

/// `m` without the members of the rooms of `rooms` whose id is `room_id`.
pub open spec fn rooms_members_removed(m: Map<u32, u32>, rooms: Seq<Room>, room_id: u32) -> Map<u32, u32>
    decreases rooms.len(),
{
    if rooms.len() == 0 {
        m
    } else {
        let before = rooms_members_removed(m, rooms.drop_last(), room_id);
        if rooms.last().id == room_id { members_removed(before, rooms.last().members@) } else { before }
    }
}

/// Whether `u` is a member of a room of `rooms` whose id is `room_id`.
pub open spec fn member_of_room(rooms: Seq<Room>, room_id: u32, u: u32) -> bool {
    exists|k: int, q: int| 0 <= k < rooms.len() && #[trigger] rooms[k].id == room_id && 0 <= q < rooms[k].members@.len()
        && #[trigger] rooms[k].members@[q].user_id == u
}

/// No room kept has the id `room_id`.
proof fn lemma_rooms_kept(rooms: Seq<Room>, room_id: u32)
    ensures
        forall|k: int| 0 <= k < rooms_kept(rooms, room_id).len() ==> #[trigger] rooms_kept(rooms, room_id)[k].id != room_id,
    decreases rooms.len(),
{
    if rooms.len() > 0 {
        lemma_rooms_kept(rooms.drop_last(), room_id);
    }
}

/// Whether `u` is one of the members `ms`.
pub open spec fn has_member(ms: Seq<crate::room_flow::Member>, u: u32) -> bool {
    exists|q: int| 0 <= q < ms.len() && #[trigger] ms[q].user_id == u
}

/// Removing the members of `ms` drops exactly their keys.
proof fn lemma_members_removed(m: Map<u32, u32>, ms: Seq<crate::room_flow::Member>)
    ensures
        forall|u: u32| #[trigger] members_removed(m, ms).contains_key(u) <==> (m.contains_key(u) && !has_member(ms, u)),
        forall|u: u32| #[trigger] members_removed(m, ms).contains_key(u) ==> members_removed(m, ms)[u] == m[u],
    decreases ms.len(),
{
    if ms.len() > 0 {
        let init = ms.drop_last();
        lemma_members_removed(m, init);
        let prev = members_removed(m, init);
        assert(members_removed(m, ms) == prev.remove(ms.last().user_id));
        assert forall|u: u32| has_member(ms, u) <==> (has_member(init, u) || ms.last().user_id == u) by {
            if has_member(ms, u) {
                let q = choose|q: int| 0 <= q < ms.len() && #[trigger] ms[q].user_id == u;
                if q < ms.len() - 1 {
                    assert(init[q].user_id == u);
                }
            }
            if has_member(init, u) {
                let q = choose|q: int| 0 <= q < init.len() && #[trigger] init[q].user_id == u;
                assert(ms[q].user_id == u);
            }
            if ms.last().user_id == u {
                assert(ms[ms.len() - 1].user_id == u);
            }
        }
    }
}

/// Removing the members of the rooms with id `room_id` drops exactly their
/// keys.
proof fn lemma_rooms_members_removed(m: Map<u32, u32>, rooms: Seq<Room>, room_id: u32)
    ensures
        forall|u: u32| #[trigger] rooms_members_removed(m, rooms, room_id).contains_key(u) <==> (m.contains_key(u)
            && !member_of_room(rooms, room_id, u)),
        forall|u: u32| #[trigger] rooms_members_removed(m, rooms, room_id).contains_key(u)
            ==> rooms_members_removed(m, rooms, room_id)[u] == m[u],
    decreases rooms.len(),
{
    if rooms.len() > 0 {
        let init = rooms.drop_last();
        let last = rooms.last();
        lemma_rooms_members_removed(m, init, room_id);
        let before = rooms_members_removed(m, init, room_id);
        lemma_members_removed(before, last.members@);
        assert forall|u: u32| member_of_room(rooms, room_id, u) <==> (member_of_room(init, room_id, u)
            || (last.id == room_id && has_member(last.members@, u))) by {
            if member_of_room(rooms, room_id, u) {
                let (k, q) = choose|k: int, q: int| 0 <= k < rooms.len() && #[trigger] rooms[k].id == room_id
                    && 0 <= q < rooms[k].members@.len() && #[trigger] rooms[k].members@[q].user_id == u;
                if k < rooms.len() - 1 {
                    assert(init[k].id == room_id && init[k].members@[q].user_id == u);
                } else {
                    assert(last.members@[q].user_id == u);
                }
            }
            if member_of_room(init, room_id, u) {
                let (k, q) = choose|k: int, q: int| 0 <= k < init.len() && #[trigger] init[k].id == room_id
                    && 0 <= q < init[k].members@.len() && #[trigger] init[k].members@[q].user_id == u;
                assert(rooms[k].id == room_id && rooms[k].members@[q].user_id == u);
            }
            if last.id == room_id && has_member(last.members@, u) {
                let q = choose|q: int| 0 <= q < last.members@.len() && #[trigger] last.members@[q].user_id == u;
                assert(rooms[rooms.len() - 1].id == room_id && rooms[rooms.len() - 1].members@[q].user_id == u);
            }
        }
    }
}

} // verus!
