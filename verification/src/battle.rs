//! The state of a battle: the map, the players and the order of turns.

use vstd::prelude::*;
use crate::battle_enum::{BattlePlayerState, LIMIT_TOTAL_TURN_TIMES};
use crate::battle_player::BattlePlayer;
use crate::map_data::TileMap;
use crate::mgr::League;
use crate::room::{RoomType, MEMBER_MAX};

verus! {

/// A player's line in the final ranking of a battle.
pub struct SummaryUser {
    pub user_id: u32,
    pub name: String,
    pub cter_id: u32,
    pub grade: u8,
    /// the player's place in this battle
    pub summary_rank: u8,
    pub league: League,
    /// score won or lost in this battle
    pub reward_score: i32,
    /// whether the line was sent to the game server
    pub push_to_server: bool,
}

/// The ranking line of a player before the battle's result is known.
pub open spec fn summary_line(p: BattlePlayer) -> SummaryUser {
    SummaryUser {
        user_id: p.user_id,
        name: p.name,
        cter_id: p.major_cter.0,
        grade: p.grade,
        summary_rank: 0,
        league: p.league,
        reward_score: 0,
        push_to_server: false,
    }
}

impl SummaryUser {
    /// The ranking line of a player, before the battle's result is known.
    pub fn from_battle_player(battle_player: &BattlePlayer) -> (r: SummaryUser)
        ensures
            r == summary_line(*battle_player),
    {
        SummaryUser {
            user_id: battle_player.user_id,
            name: battle_player.name.clone(),
            cter_id: battle_player.major_cter.0,
            grade: battle_player.grade,
            summary_rank: 0,
            league: battle_player.league,
            reward_score: 0,
            push_to_server: false,
        }
    }
}

/// Why a request about the battle cannot be served.
#[derive(Debug, Clone, Copy, PartialEq, Eq, Structural)]
pub enum BattleError {
    /// there is no slot with this number in the turn order
    NoTurnOrder(usize),
    /// no player has this id
    NoPlayer(u32),
    /// the player is out of the battle
    PlayerDied(u32),
    /// the map has no cell at this position
    NoMapCell(usize),
    /// nobody stands on the cell at this position
    EmptyCell(usize),
    /// no character has this id
    NoCter(u32),
    /// the character is dead
    CterDied(u32),
    /// a buff keeps the character of this player where it stands
    CanNotMove(u32),
    /// a buff with this id keeps the character from using skills
    SkillLocked(u32),
}

/// The state of a battle.
pub struct BattleData {
    pub room_type: RoomType,
    pub tile_map: TileMap,
    /// the slot in the turn order whose turn is next
    pub next_turn_index: usize,
    /// the turn order: a user id per slot, 0 for an empty slot
    pub turn_orders: [u32; 4],
    /// the slot whose turn it was when the map was refreshed
    pub reflash_map_turn: Option<usize>,
    /// the players; a user id stands for the first player with that id
    pub battle_player: Vec<BattlePlayer>,
    /// the ranking: one group of players per place
    pub summary_vec: Vec<Vec<SummaryUser>>,
    /// the players who died together in the current event
    pub summary_vec_temp: Vec<SummaryUser>,
    /// the player who left, and whether they are punished
    pub leave_user: (u32, bool),
    /// league snapshot per user id
    pub leave_map: Vec<(u32, i8)>,
    /// time limit of a turn, in milliseconds
    pub turn_limit_time: u64,
    pub turn: u32,
    pub round: u16,
    /// turns played in this battle
    pub total_turn_times: u16,
    /// configuration id of the previous map
    pub last_map_id: u32,
}

/// `i` is the position of the first player with user id `user_id`.
pub open spec fn first_player(ps: Seq<BattlePlayer>, user_id: u32, i: int) -> bool {
    &&& 0 <= i < ps.len()
    &&& ps[i].user_id == user_id
    &&& forall|j: int| 0 <= j < i ==> #[trigger] ps[j].user_id != user_id
}

/// Whether some player has user id `user_id`.
pub open spec fn has_player(ps: Seq<BattlePlayer>, user_id: u32) -> bool {
    exists|i: int| 0 <= i < ps.len() && #[trigger] ps[i].user_id == user_id
}

/// Whether a player is still in the battle.
pub open spec fn player_alive(p: BattlePlayer) -> bool {
    p.status.battle_state == BattlePlayerState::Normal
}

/// Number of players in `ps` still in the battle.
pub open spec fn alive_count(ps: Seq<BattlePlayer>) -> nat
    decreases ps.len(),
{
    if ps.len() == 0 {
        0
    } else {
        alive_count(ps.drop_last()) + if player_alive(ps.last()) { 1nat } else { 0nat }
    }
}

proof fn lemma_alive_count_le(ps: Seq<BattlePlayer>)
    ensures
        alive_count(ps) <= ps.len(),
    decreases ps.len(),
{
    if ps.len() > 0 {
        lemma_alive_count_le(ps.drop_last());
    }
}

/// Position of the first player with user id `user_id`.
pub fn player_position(ps: &Vec<BattlePlayer>, user_id: u32) -> (r: Option<usize>)
    ensures
        r is None <==> !has_player(ps@, user_id),
        r matches Some(i) ==> first_player(ps@, user_id, i as int),
{
    let mut i: usize = 0;
    while i < ps.len()
        invariant
            i <= ps@.len(),
            forall|j: int| 0 <= j < i ==> #[trigger] ps@[j].user_id != user_id,
        decreases ps.len() - i,
    {
        if ps[i].user_id == user_id {
            return Some(i);
        }
        i = i + 1;
    }
    None
}

/// The player a lookup by user id finds: the first one with that id.
pub open spec fn player_of(ps: Seq<BattlePlayer>, user_id: u32) -> BattlePlayer
    recommends
        has_player(ps, user_id),
{
    ps[choose|i: int| first_player(ps, user_id, i)]
}

pub(crate) proof fn lemma_first_player_unique(ps: Seq<BattlePlayer>, user_id: u32, i: int, k: int)
    requires
        first_player(ps, user_id, i),
        first_player(ps, user_id, k),
    ensures
        i == k,
{
    if i < k {
        assert(ps[i].user_id != user_id);
    } else if k < i {
        assert(ps[k].user_id != user_id);
    }
}

/// Where some player has user id `user_id`, a first one does.
pub proof fn lemma_has_player_first(ps: Seq<BattlePlayer>, user_id: u32)
    requires
        has_player(ps, user_id),
    ensures
        exists|i: int| first_player(ps, user_id, i),
    decreases ps.len(),
{
    if ps.last().user_id == user_id && !has_player(ps.drop_last(), user_id) {
        let n = ps.len() - 1;
        assert forall|j: int| 0 <= j < n implies #[trigger] ps[j].user_id != user_id by {
            assert(ps.drop_last()[j] == ps[j]);
        }
        assert(first_player(ps, user_id, n));
    } else {
        let i0 = choose|i: int| 0 <= i < ps.len() && #[trigger] ps[i].user_id == user_id;
        if i0 < ps.len() - 1 {
            assert(ps.drop_last()[i0] == ps[i0]);
        }
        assert(has_player(ps.drop_last(), user_id));
        lemma_has_player_first(ps.drop_last(), user_id);
        let i = choose|i: int| first_player(ps.drop_last(), user_id, i);
        assert forall|j: int| 0 <= j < i implies #[trigger] ps[j].user_id != user_id by {
            assert(ps.drop_last()[j] == ps[j]);
        }
        assert(first_player(ps, user_id, i));
    }
}

/// Whether the turn may stop at a slot holding `uid`: a user id, and
/// either no player with it or a player still in the battle.
pub open spec fn stop_slot(ps: Seq<BattlePlayer>, uid: u32) -> bool {
    uid != 0 && (!has_player(ps, uid) || player_alive(player_of(ps, uid)))
}

/// The slot `k` steps after slot `start` (for `k >= 1`): the first step goes
/// to the next slot, or to the first slot from the last one or from a
/// number past the end; later steps go round the four slots.
pub open spec fn slot_after(start: usize, k: int) -> int {
    let first = if start + 1 >= 4 { 0 } else { start + 1 };
    (first + k - 1) % 4
}

proof fn lemma_slots_covered(start: usize, s: int)
    requires
        0 <= s < 4,
    ensures
        exists|k: int| 1 <= k <= 4 && #[trigger] slot_after(start, k) == s,
{
    let first: int = if start + 1 >= 4 { 0 } else { start + 1 };
    let k = (s - first + 4) % 4 + 1;
    assert(slot_after(start, k) == s);
}

impl BattleData {
    /// A battle of kind `room_type` before anyone joined: an empty map and
    /// turn order, one empty ranking group per member, a one-minute turn
    /// limit.
    pub fn new(room_type: RoomType) -> (r: BattleData)
        ensures
            r.room_type == room_type,
            r.next_turn_index == 0,
            r.turn_orders@ == seq![0u32, 0u32, 0u32, 0u32],
            r.reflash_map_turn is None,
            r.battle_player@.len() == 0,
            r.summary_vec@.len() == MEMBER_MAX,
            forall|i: int| 0 <= i < MEMBER_MAX ==> (#[trigger] r.summary_vec@[i])@.len() == 0,
            r.summary_vec_temp@.len() == 0,
            r.leave_user == (0u32, false),
            r.leave_map@.len() == 0,
            r.turn_limit_time == 60000,
            r.turn == 0,
            r.round == 0,
            r.total_turn_times == 0,
            r.last_map_id == 0,
            r.tile_map.map_cells@.len() == 0,
    {
        let mut v: Vec<Vec<SummaryUser>> = Vec::new();
        let mut i: usize = 0;
        while i < MEMBER_MAX
            invariant
                i <= MEMBER_MAX,
                v@.len() == i,
                forall|k: int| 0 <= k < i ==> (#[trigger] v@[k])@.len() == 0,
            decreases MEMBER_MAX - i,
        {
            v.push(Vec::new());
            i = i + 1;
        }
        let bd = BattleData {
            room_type,
            tile_map: TileMap { id: 0, map_cells: Vec::new(), world_cell_map: Vec::new(), un_pair_map: Vec::new() },
            next_turn_index: 0,
            turn_orders: [0, 0, 0, 0],
            reflash_map_turn: None,
            battle_player: Vec::new(),
            summary_vec: v,
            summary_vec_temp: Vec::new(),
            leave_user: (0, false),
            leave_map: Vec::new(),
            turn_limit_time: 60000,
            turn: 0,
            round: 0,
            total_turn_times: 0,
            last_map_id: 0,
        };
        assert(bd.turn_orders@ =~= seq![0u32, 0u32, 0u32, 0u32]);
        bd
    }

    /// Counts one more turn. Where the count reaches the limit, returns the
    /// user id to name in the task that ends the battle: the first player's,
    /// 0 where there is none.
    pub fn add_total_turn_times(&mut self) -> (r: Option<u32>)
        requires
            old(self).total_turn_times < u16::MAX,
        ensures
            final(self).total_turn_times == old(self).total_turn_times + 1,
            r is None <==> final(self).total_turn_times < LIMIT_TOTAL_TURN_TIMES,
            r matches Some(u) ==> u == (if old(self).battle_player@.len() > 0 { old(self).battle_player@[0].user_id } else { 0 }),
            final(self).battle_player@ == old(self).battle_player@,
            final(self).turn_orders == old(self).turn_orders,
            final(self).next_turn_index == old(self).next_turn_index,
    {
        self.total_turn_times = self.total_turn_times + 1;
        if self.total_turn_times < LIMIT_TOTAL_TURN_TIMES {
            return None;
        }
        let user_id = if self.battle_player.len() > 0 { self.battle_player[0].user_id } else { 0 };
        Some(user_id)
    }

    /// The user id in slot `index` of the turn order (the next slot where
    /// none is given).
    pub fn get_turn_user(&self, index: Option<usize>) -> (r: Result<u32, BattleError>)
        ensures
            ({
                let i = match index { Some(i) => i, None => self.next_turn_index };
                if i < 4 { r == Ok::<u32, BattleError>(self.turn_orders@[i as int]) } else { r == Err::<u32, BattleError>(BattleError::NoTurnOrder(i)) }
            }),
    {
        let index_res = match index {
            Some(i) => i,
            None => self.next_turn_index,
        };
        if index_res < 4 {
            Ok(self.turn_orders[index_res])
        } else {
            Err(BattleError::NoTurnOrder(index_res))
        }
    }

    /// Whether the player of the next turn is a robot.
    pub fn next_turn_is_robot(&self) -> (r: bool)
        ensures
            r == (self.next_turn_index < 4 && has_player(self.battle_player@, self.turn_orders@[self.next_turn_index as int])
                && player_of(self.battle_player@, self.turn_orders@[self.next_turn_index as int]).robot_data is Some),
    {
        match self.get_turn_user(None) {
            Ok(user_id) => match player_position(&self.battle_player, user_id) {
                Some(i) => {
                    proof {
                        let k = choose|k: int| first_player(self.battle_player@, user_id, k);
                        lemma_first_player_unique(self.battle_player@, user_id, i as int, k);
                    }
                    self.battle_player[i].is_robot()
                },
                None => false,
            },
            Err(_) => false,
        }
    }

    /// The player `user_id` (the player of the next turn where none is
    /// given); with `is_alive`, only a player still in the battle.
    pub fn get_battle_player(&self, user_id: Option<u32>, is_alive: bool) -> (r: Result<&BattlePlayer, BattleError>)
        ensures
            ({
                let uid = match user_id { Some(u) => u, None => self.turn_orders@[self.next_turn_index as int] };
                if user_id is None && self.next_turn_index >= 4 {
                    r == Err::<&BattlePlayer, BattleError>(BattleError::NoTurnOrder(self.next_turn_index))
                } else if !has_player(self.battle_player@, uid) {
                    r == Err::<&BattlePlayer, BattleError>(BattleError::NoPlayer(uid))
                } else if is_alive && !player_alive(player_of(self.battle_player@, uid)) {
                    r == Err::<&BattlePlayer, BattleError>(BattleError::PlayerDied(uid))
                } else {
                    r matches Ok(p) && *p == player_of(self.battle_player@, uid)
                }
            }),
    {
        let uid = match user_id {
            Some(id) => id,
            None => match self.get_turn_user(None) {
                Ok(u) => u,
                Err(e) => return Err(e),
            },
        };
        match player_position(&self.battle_player, uid) {
            None => Err(BattleError::NoPlayer(uid)),
            Some(i) => {
                proof {
                    let k = choose|k: int| first_player(self.battle_player@, uid, k);
                    lemma_first_player_unique(self.battle_player@, uid, i as int, k);
                }
                if is_alive && self.battle_player[i].is_died() {
                    Err(BattleError::PlayerDied(uid))
                } else {
                    Ok(&self.battle_player[i])
                }
            },
        }
    }

    /// Position in the player list of player `user_id`; with `is_alive`,
    /// only a player still in the battle.
    pub fn get_battle_player_pos(&self, user_id: u32, is_alive: bool) -> (r: Result<usize, BattleError>)
        ensures
            !has_player(self.battle_player@, user_id) ==> r == Err::<usize, BattleError>(BattleError::NoPlayer(user_id)),
            has_player(self.battle_player@, user_id) ==> {
                if is_alive && !player_alive(player_of(self.battle_player@, user_id)) {
                    r == Err::<usize, BattleError>(BattleError::PlayerDied(user_id))
                } else {
                    r matches Ok(i) && first_player(self.battle_player@, user_id, i as int)
                        && self.battle_player@[i as int] == player_of(self.battle_player@, user_id)
                }
            },
    {
        match player_position(&self.battle_player, user_id) {
            None => Err(BattleError::NoPlayer(user_id)),
            Some(i) => {
                proof {
                    let k = choose|k: int| first_player(self.battle_player@, user_id, k);
                    lemma_first_player_unique(self.battle_player@, user_id, i as int, k);
                }
                if is_alive && self.battle_player[i].is_died() {
                    Err(BattleError::PlayerDied(user_id))
                } else {
                    Ok(i)
                }
            },
        }
    }

    /// The player standing on cell `index`, who must be still in the battle.
    pub fn get_battle_player_by_map_cell_index(&self, index: usize) -> (r: Result<&BattlePlayer, BattleError>)
        ensures
            index >= self.tile_map.map_cells@.len() ==> r == Err::<&BattlePlayer, BattleError>(BattleError::NoMapCell(index)),
            index < self.tile_map.map_cells@.len() ==> {
                let uid = self.tile_map.map_cells@[index as int].user_id;
                if uid == 0 {
                    r == Err::<&BattlePlayer, BattleError>(BattleError::EmptyCell(index))
                } else if !has_player(self.battle_player@, uid) {
                    r == Err::<&BattlePlayer, BattleError>(BattleError::NoPlayer(uid))
                } else if !player_alive(player_of(self.battle_player@, uid)) {
                    r == Err::<&BattlePlayer, BattleError>(BattleError::PlayerDied(uid))
                } else {
                    r matches Ok(p) && *p == player_of(self.battle_player@, uid)
                }
            },
    {
        if index >= self.tile_map.map_cells.len() {
            return Err(BattleError::NoMapCell(index));
        }
        let user_id = self.tile_map.map_cells[index].user_id;
        if user_id == 0 {
            return Err(BattleError::EmptyCell(index));
        }
        self.get_battle_player(Some(user_id), true)
    }

    /// The user ids of the players, in list order.
    pub fn get_battle_players_vec(&self) -> (r: Vec<u32>)
        ensures
            r@.len() == self.battle_player@.len(),
            forall|i: int| 0 <= i < r@.len() ==> #[trigger] r@[i] == self.battle_player@[i].user_id,
    {
        let mut v: Vec<u32> = Vec::new();
        let mut i: usize = 0;
        while i < self.battle_player.len()
            invariant
                i <= self.battle_player@.len(),
                v@.len() == i,
                forall|k: int| 0 <= k < i ==> #[trigger] v@[k] == self.battle_player@[k].user_id,
            decreases self.battle_player.len() - i,
        {
            v.push(self.battle_player[i].user_id);
            i = i + 1;
        }
        v
    }

    /// Number of players still in the battle.
    pub fn get_alive_player_num(&self) -> (r: usize)
        ensures
            r == alive_count(self.battle_player@),
    {
        let ghost ps = self.battle_player@;
        let mut n: usize = 0;
        let mut i: usize = 0;
        while i < self.battle_player.len()
            invariant
                ps == self.battle_player@,
                i <= ps.len(),
                n == alive_count(ps.take(i as int)),
            decreases ps.len() - i,
        {
            proof {
                assert(ps.take(i + 1).drop_last() == ps.take(i as int));
                lemma_alive_count_le(ps.take(i as int));
            }
            if self.battle_player[i].status.battle_state == BattlePlayerState::Normal {
                n = n + 1;
            }
            i = i + 1;
        }
        proof {
            assert(ps.take(ps.len() as int) == ps);
        }
        n
    }

    /// Whether the map must be refreshed: at most two cells are left
    /// unpaired and at least two players are still in the battle.
    pub fn check_refresh_map(&self) -> (r: bool)
        ensures
            r == (alive_count(self.battle_player@) >= 2 && self.tile_map.un_pair_map@.len() <= 2),
    {
        let allive_count = self.get_alive_player_num();
        let un_open_count = self.tile_map.un_pair_map.len();
        let mut need_reflash_map = false;
        if un_open_count <= 2 {
            need_reflash_map = true;
        }
        if allive_count >= 2 && need_reflash_map {
            return true;
        }
        false
    }

    /// Closes again, for the player of the next slot, every cell they opened
    /// this turn that was not paired.
    pub fn clear_open_cells(&mut self)
        ensures
            final(self).tile_map.map_cells@.len() == old(self).tile_map.map_cells@.len(),
            final(self).battle_player@ == old(self).battle_player@,
            final(self).turn_orders == old(self).turn_orders,
            final(self).next_turn_index == old(self).next_turn_index,
            forall|k: int| 0 <= k < old(self).tile_map.map_cells@.len() ==> {
                let (o, n) = (old(self).tile_map.map_cells@[k], #[trigger] final(self).tile_map.map_cells@[k]);
                let cleared = old(self).next_turn_index < 4
                    && has_player(old(self).battle_player@, old(self).turn_orders@[old(self).next_turn_index as int])
                    && player_of(old(self).battle_player@, old(self).turn_orders@[old(self).next_turn_index as int])
                        .flow_data.open_map_cell_vec_history@.contains(k as usize)
                    && o.pair_index is None;
                &&& n.open_user == (if cleared { 0 } else { o.open_user })
                &&& n.id == o.id && n.index == o.index && n.user_id == o.user_id
                &&& n.pair_index == o.pair_index && n.x == o.x && n.y == o.y
                &&& n.element == o.element && n.is_world == o.is_world
            },
    {
        let index = self.next_turn_index;
        if index >= 4 {
            return;
        }
        let user_id = self.turn_orders[index];
        let p = match player_position(&self.battle_player, user_id) {
            Some(p) => p,
            None => return,
        };
        proof {
            let k = choose|k: int| first_player(self.battle_player@, user_id, k);
            lemma_first_player_unique(self.battle_player@, user_id, p as int, k);
        }
        let ghost hist = self.battle_player@[p as int].flow_data.open_map_cell_vec_history@;
        let ghost cells = old(self).tile_map.map_cells@;
        let n_cells = self.tile_map.map_cells.len();
        assert(cells.len() == n_cells);
        let mut i: usize = 0;
        while i < self.battle_player[p].flow_data.open_map_cell_vec_history.len()
            invariant
                p < self.battle_player@.len(),
                self.battle_player@ == old(self).battle_player@,
                self.turn_orders == old(self).turn_orders,
                self.next_turn_index == old(self).next_turn_index,
                hist == self.battle_player@[p as int].flow_data.open_map_cell_vec_history@,
                i <= hist.len(),
                self.tile_map.map_cells@.len() == cells.len(),
                cells.len() <= usize::MAX,
                forall|k: int| 0 <= k < cells.len() ==> {
                    let (o, n) = (cells[k], #[trigger] self.tile_map.map_cells@[k]);
                    let cleared = hist.take(i as int).contains(k as usize) && o.pair_index is None;
                    &&& n.open_user == (if cleared { 0 } else { o.open_user })
                    &&& n.id == o.id && n.index == o.index && n.user_id == o.user_id
                    &&& n.pair_index == o.pair_index && n.x == o.x && n.y == o.y
                    &&& n.element == o.element && n.is_world == o.is_world
                },
            decreases hist.len() - i,
        {
            let idx = self.battle_player[p].flow_data.open_map_cell_vec_history[i];
            proof {
                assert(hist.take(i + 1) == hist.take(i as int).push(idx));
                assert forall|k: int| 0 <= k < cells.len() implies
                    (#[trigger] hist.take(i + 1).contains(k as usize) <==> hist.take(i as int).contains(k as usize) || k == idx) by {
                    vstd::seq_lib::lemma_seq_contains_after_push(hist.take(i as int), idx, k as usize);
                }
            }
            if idx < self.tile_map.map_cells.len() {
                if self.tile_map.map_cells[idx].pair_index.is_none() {
                    self.tile_map.map_cells[idx].open_user = 0;
                }
            }
            i = i + 1;
        }
        proof {
            assert(hist.take(hist.len() as int) == hist);
        }
    }

    /// Moves the turn on, slot after slot of the turn order (back to the
    /// first after the last), past empty slots and players out of the
    /// battle, to the first slot where it may stop (see `stop_slot`).
    /// Returns the user id in that slot.
    pub fn choice_index_next_turn(&mut self) -> (r: u32)
        requires
            exists|s: int| 0 <= s < 4 && #[trigger] stop_slot(old(self).battle_player@, old(self).turn_orders@[s]),
        ensures
            exists|n: int| 1 <= n <= 4 && {
                &&& final(self).next_turn_index == slot_after(old(self).next_turn_index, n)
                &&& forall|k: int| 1 <= k < n ==> !stop_slot(old(self).battle_player@,
                    #[trigger] old(self).turn_orders@[slot_after(old(self).next_turn_index, k)])
            },
            final(self).next_turn_index < 4,
            r == final(self).turn_orders@[final(self).next_turn_index as int],
            stop_slot(final(self).battle_player@, r),
            final(self).battle_player@ == old(self).battle_player@,
            final(self).turn_orders == old(self).turn_orders,
            *final(self) == (BattleData { next_turn_index: final(self).next_turn_index, ..*old(self) }),
    {
        let ghost start = self.next_turn_index;
        let mut steps: usize = 0;
        while steps < 4
            invariant
                *self == (BattleData { next_turn_index: self.next_turn_index, ..*old(self) }),
                self.battle_player@ == old(self).battle_player@,
                self.turn_orders == old(self).turn_orders,
                start == old(self).next_turn_index,
                steps <= 4,
                steps == 0 ==> self.next_turn_index == start,
                steps > 0 ==> self.next_turn_index == slot_after(start, steps as int),
                forall|k: int| 1 <= k <= steps ==> !stop_slot(self.battle_player@,
                    #[trigger] self.turn_orders@[slot_after(start, k)]),
            decreases 4 - steps,
        {
            let next = if self.next_turn_index >= 3 { 0 } else { self.next_turn_index + 1 };
            self.next_turn_index = next;
            steps = steps + 1;
            assert(self.next_turn_index == slot_after(start, steps as int));
            let user_id = self.turn_orders[self.next_turn_index];
            if user_id != 0 {
                match player_position(&self.battle_player, user_id) {
                    Some(i) => {
                        proof {
                            let k = choose|k: int| first_player(self.battle_player@, user_id, k);
                            lemma_first_player_unique(self.battle_player@, user_id, i as int, k);
                        }
                        if !self.battle_player[i].is_died() {
                            return user_id;
                        }
                    },
                    None => {
                        return user_id;
                    },
                }
            }
        }
        proof {
            let s = choose|s: int| 0 <= s < 4 && #[trigger] stop_slot(old(self).battle_player@, old(self).turn_orders@[s]);
            lemma_slots_covered(start, s);
            let k = choose|k: int| 1 <= k <= 4 && #[trigger] slot_after(start, k) == s;
            assert(!stop_slot(self.battle_player@, self.turn_orders@[slot_after(start, k)]));
        }
        0
    }

    /// Puts the turn back to the first slot and counts a new round.
    pub fn set_next_turn_index(&mut self, index: usize)
        ensures
            final(self).next_turn_index == index,
            final(self).turn_orders == old(self).turn_orders,
            final(self).battle_player@ == old(self).battle_player@,
    {
        self.next_turn_index = index;
    }

}


/// The user a player lookup is for: the one given, or else the one in the
/// slot of the next turn.
pub open spec fn wanted_user(bd: BattleData, user_id: Option<u32>) -> u32 {
    match user_id {
        Some(u) => u,
        None => bd.turn_orders@[bd.next_turn_index as int],
    }
}

/// Why a lookup of the player of `uid` fails, if it does: no such player,
/// or (where only a player still in the battle will do) one out of it.
pub open spec fn lookup_error(ps: Seq<BattlePlayer>, uid: u32, is_alive: bool) -> Option<BattleError> {
    if !has_player(ps, uid) {
        Some(BattleError::NoPlayer(uid))
    } else if is_alive && !player_alive(player_of(ps, uid)) {
        Some(BattleError::PlayerDied(uid))
    } else {
        None
    }
}

impl BattleData {
    /// The player `user_id` (the player of the next turn where none is
    /// given), to be changed in place; with `is_alive`, only a player still
    /// in the battle (see `get_battle_player`). What the caller writes
    /// through the reference lands in that player's first place in the list.
    pub fn get_battle_player_mut(&mut self, user_id: Option<u32>, is_alive: bool) -> (r: Result<&mut BattlePlayer, BattleError>)
        ensures
            user_id is None && old(self).next_turn_index >= 4 ==>
                r == Err::<&mut BattlePlayer, BattleError>(BattleError::NoTurnOrder(old(self).next_turn_index))
                && *final(self) == *old(self),
            !(user_id is None && old(self).next_turn_index >= 4) ==>
                match lookup_error(old(self).battle_player@, wanted_user(*old(self), user_id), is_alive) {
                    Some(e) => r == Err::<&mut BattlePlayer, BattleError>(e) && *final(self) == *old(self),
                    None => r is Ok,
                },
            r matches Ok(p) ==> exists|i: int| #[trigger] first_player(old(self).battle_player@, wanted_user(*old(self), user_id), i)
                && *p == old(self).battle_player@[i]
                && final(self).battle_player@ == old(self).battle_player@.update(i, *final(p))
                && *final(self) == (BattleData { battle_player: final(self).battle_player, ..*old(self) }),
    {
        let uid = match user_id {
            Some(id) => id,
            None => match self.get_turn_user(None) {
                Ok(u) => u,
                Err(e) => return Err(e),
            },
        };
        match player_position(&self.battle_player, uid) {
            None => Err(BattleError::NoPlayer(uid)),
            Some(i) => {
                proof {
                    let k = choose|k: int| first_player(self.battle_player@, uid, k);
                    lemma_first_player_unique(self.battle_player@, uid, i as int, k);
                }
                if is_alive && self.battle_player[i].is_died() {
                    Err(BattleError::PlayerDied(uid))
                } else {
                    let ghost ps = self.battle_player@;
                    proof { assert(first_player(ps, uid, i as int)); }
                    Ok(&mut self.battle_player[i])
                }
            },
        }
    }

    /// The player standing on cell `index`, who must be still in the
    /// battle, to be changed in place (see `get_battle_player_by_map_cell_index`).
    pub fn get_battle_player_mut_by_map_cell_index(&mut self, index: usize) -> (r: Result<&mut BattlePlayer, BattleError>)
        ensures
            index >= old(self).tile_map.map_cells@.len() ==> r == Err::<&mut BattlePlayer, BattleError>(BattleError::NoMapCell(index))
                && *final(self) == *old(self),
            index < old(self).tile_map.map_cells@.len() && old(self).tile_map.map_cells@[index as int].user_id == 0 ==>
                r == Err::<&mut BattlePlayer, BattleError>(BattleError::EmptyCell(index)) && *final(self) == *old(self),
            index < old(self).tile_map.map_cells@.len() && old(self).tile_map.map_cells@[index as int].user_id != 0 ==>
                match lookup_error(old(self).battle_player@, old(self).tile_map.map_cells@[index as int].user_id, true) {
                    Some(e) => r == Err::<&mut BattlePlayer, BattleError>(e) && *final(self) == *old(self),
                    None => r is Ok,
                },
            r matches Ok(p) ==> index < old(self).tile_map.map_cells@.len()
                && exists|i: int| #[trigger] first_player(old(self).battle_player@, old(self).tile_map.map_cells@[index as int].user_id, i)
                && *p == old(self).battle_player@[i]
                && final(self).battle_player@ == old(self).battle_player@.update(i, *final(p))
                && *final(self) == (BattleData { battle_player: final(self).battle_player, ..*old(self) }),
    {
        if index >= self.tile_map.map_cells.len() {
            return Err(BattleError::NoMapCell(index));
        }
        let user_id = self.tile_map.map_cells[index].user_id;
        if user_id == 0 {
            return Err(BattleError::EmptyCell(index));
        }
        self.get_battle_player_mut(Some(user_id), true)
    }
}

} // verus!
