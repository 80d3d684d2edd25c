//! A player's state in a battle: flow of the turn, status, purchases.

use vstd::prelude::*;
use std::collections::{HashMap, HashSet};
use crate::battle_buff::Buff;
use crate::battle_cter::{BaseAttr, BattleCharacter};
use crate::battle_enum::{AttackState, BattleCterState, BattlePlayerState, TURN_DEFAULT_MOVEMENT_POINTS};
use crate::buff_type::SUB_MOVE_POINT;
use crate::mgr::League;
use crate::mission::{valid_condition, mission_step, step_ready, Mission, MissionCompleteType, MissionData, MissionResetType};
use crate::robot::RememberCell;

verus! {

/// Where a character stands.
#[derive(Debug, Clone, Copy, PartialEq, Eq, Structural)]
pub struct IndexData {
    /// the cell the character stands on
    pub map_cell_index: Option<usize>,
    /// the cell it stood on before
    pub last_map_cell_index: Option<usize>,
}

/// The value a transformation carries over.
#[derive(Debug, Clone, Copy, PartialEq, Eq, Structural)]
pub enum TransformInheritValue {
    Nothing,
    Int(usize),
}

impl TransformInheritValue {
    pub fn as_usize(&self) -> (r: Option<usize>)
        ensures
            r == match *self {
                TransformInheritValue::Int(n) => Some(n),
                _ => None,
            },
    {
        match self {
            TransformInheritValue::Int(n) => Some(*n),
            _ => None,
        }
    }
}


/// A player's fight status.
#[derive(Debug, Clone, Copy, PartialEq, Eq, Structural)]
pub struct BattleStatus {
    /// whether the last opened cell made a pair
    pub is_pair: bool,
    /// whether the player took attack damage this round
    pub is_attacked: bool,
    /// whether the player may end the turn
    pub is_can_end_turn: bool,
    /// a locked operation; while set the player can do nothing
    pub locked_oper: u32,
    /// whether the player may attack
    pub attack_state: AttackState,
    /// whether movement points were already rewarded for a pair attack
    pub attack_reward_movement_points: bool,
    pub battle_state: BattlePlayerState,
}

impl BattleStatus {
    /// Everything cleared.
    pub fn new() -> (r: BattleStatus)
        ensures
            r == (BattleStatus {
                is_pair: false, is_attacked: false, is_can_end_turn: false, locked_oper: 0,
                attack_state: AttackState::Invalid, attack_reward_movement_points: false,
                battle_state: BattlePlayerState::Normal,
            }),
    {
        BattleStatus {
            is_pair: false, is_attacked: false, is_can_end_turn: false, locked_oper: 0,
            attack_state: AttackState::Invalid, attack_reward_movement_points: false,
            battle_state: BattlePlayerState::Normal,
        }
    }
}

/// What a player did in the current turn and round.
pub struct TurnFlowData {
    /// movement points left
    pub residue_movement_points: u8,
    /// cells opened by the last move
    pub open_map_cell_vec: Vec<usize>,
    /// every cell opened this turn
    pub open_map_cell_vec_history: Vec<usize>,
    /// skills that may be used once per turn and were used
    pub turn_limit_skills: Vec<u32>,
    /// skills that may be used once per round and were used
    pub round_limit_skills: Vec<u32>,
    /// skills made usable by a pair
    pub pair_usable_skills: HashSet<u32>,
}

impl TurnFlowData {
    /// Nothing done yet.
    pub fn new() -> (r: TurnFlowData)
        ensures
            r.residue_movement_points == 0,
            r.open_map_cell_vec@.len() == 0,
            r.open_map_cell_vec_history@.len() == 0,
            r.turn_limit_skills@.len() == 0,
            r.round_limit_skills@.len() == 0,
            r.pair_usable_skills@ == Set::<u32>::empty(),
    {
        TurnFlowData {
            residue_movement_points: 0,
            open_map_cell_vec: Vec::new(),
            open_map_cell_vec_history: Vec::new(),
            turn_limit_skills: Vec::new(),
            round_limit_skills: Vec::new(),
            pair_usable_skills: HashSet::new(),
        }
    }
}

/// Purchases in the shop: per turn, and over the battle.
pub struct MerchandiseData {
    /// purchases of each merchandise this turn
    pub buy_map: HashMap<u32, u8>,
    /// purchases of each merchandise in the battle
    pub buy_history: HashMap<u32, u16>,
}

/// The count a map holds for `k`, 0 where it holds none.
pub open spec fn count_of<V: Copy>(m: Map<u32, V>, k: u32, zero: V) -> V {
    if m.contains_key(k) { m[k] } else { zero }
}

impl MerchandiseData {
    /// No purchases.
    pub fn new() -> (r: MerchandiseData)
        ensures
            r.buy_map@ == Map::<u32, u8>::empty(),
            r.buy_history@ == Map::<u32, u16>::empty(),
    {
        MerchandiseData { buy_map: HashMap::new(), buy_history: HashMap::new() }
    }

    /// How often merchandise `merchandise_id` was bought this turn.
    pub fn get_turn_buy_times(&self, merchandise_id: u32) -> (r: u8)
        ensures
            r == count_of(self.buy_map@, merchandise_id, 0u8),
    {
        broadcast use vstd::std_specs::hash::group_hash_axioms;
        match self.buy_map.get(&merchandise_id) {
            Some(times) => *times,
            None => 0,
        }
    }

    /// Counts one purchase of merchandise `merchandise_id`, this turn and in the battle.
    pub fn add_buy_times(&mut self, merchandise_id: u32)
        requires
            count_of(old(self).buy_map@, merchandise_id, 0u8) < u8::MAX,
            count_of(old(self).buy_history@, merchandise_id, 0u16) < u16::MAX,
        ensures
            final(self).buy_map@ == old(self).buy_map@.insert(merchandise_id,
                (count_of(old(self).buy_map@, merchandise_id, 0u8) + 1) as u8),
            final(self).buy_history@ == old(self).buy_history@.insert(merchandise_id,
                (count_of(old(self).buy_history@, merchandise_id, 0u16) + 1) as u16),
    {
        broadcast use vstd::std_specs::hash::group_hash_axioms;
        let res: u8 = match self.buy_map.get(&merchandise_id) {
            Some(times) => *times,
            None => 0,
        };
        self.buy_map.insert(merchandise_id, res + 1);
        let res: u16 = match self.buy_history.get(&merchandise_id) {
            Some(times) => *times,
            None => 0,
        };
        self.buy_history.insert(merchandise_id, res + 1);
    }

    /// Forgets this turn's purchases; the battle's stay.
    pub fn clear_turn_buy_times(&mut self)
        ensures
            final(self).buy_map@ == Map::<u32, u8>::empty(),
            final(self).buy_history@ == old(self).buy_history@,
    {
        self.buy_map.clear();
    }
}

/// What a robot player remembers.
pub struct RobotData {
    pub robot_id: u32,
    /// cells the robot has seen
    pub remember_map_cell: Vec<RememberCell>,
}

/// A player in a battle.
pub struct BattlePlayer {
    pub user_id: u32,
    pub name: String,
    pub gold: i32,
    pub grade: u8,
    pub league: League,
    pub mission_data: MissionData,
    pub merchandise_data: MerchandiseData,
    /// the player's characters: the major one, and any minions
    pub cters: Vec<BattleCharacter>,
    /// the major character: (id, configuration id)
    pub major_cter: (u32, u32),
    /// the character acting now: (id, configuration id)
    pub current_cter: (u32, u32),
    pub flow_data: TurnFlowData,
    pub status: BattleStatus,
    /// set for a robot player
    pub robot_data: Option<RobotData>,
    pub team_id: u8,
}

/// Whether some character in `cters` has id `id`.
pub open spec fn has_cter(cters: Seq<BattleCharacter>, id: u32) -> bool {
    exists|i: int| 0 <= i < cters.len() && #[trigger] cters[i].base_attr.cter_id == id
}

/// `i` is the position of the first character with id `id`.
pub open spec fn first_cter(cters: Seq<BattleCharacter>, id: u32, i: int) -> bool {
    &&& 0 <= i < cters.len()
    &&& cters[i].base_attr.cter_id == id
    &&& forall|j: int| 0 <= j < i ==> #[trigger] cters[j].base_attr.cter_id != id
}

/// Where some character has id `id`, a first one does.
pub proof fn lemma_has_cter_first(cters: Seq<BattleCharacter>, id: u32)
    requires
        has_cter(cters, id),
    ensures
        exists|i: int| first_cter(cters, id, i),
    decreases cters.len(),
{
    if cters.last().base_attr.cter_id == id && !has_cter(cters.drop_last(), id) {
        let n = cters.len() - 1;
        assert forall|j: int| 0 <= j < n implies #[trigger] cters[j].base_attr.cter_id != id by {
            assert(cters.drop_last()[j] == cters[j]);
        }
        assert(first_cter(cters, id, n));
    } else {
        let i0 = choose|i: int| 0 <= i < cters.len() && #[trigger] cters[i].base_attr.cter_id == id;
        if i0 < cters.len() - 1 {
            assert(cters.drop_last()[i0] == cters[i0]);
        }
        assert(has_cter(cters.drop_last(), id));
        lemma_has_cter_first(cters.drop_last(), id);
        let i = choose|i: int| first_cter(cters.drop_last(), id, i);
        assert forall|j: int| 0 <= j < i implies #[trigger] cters[j].base_attr.cter_id != id by {
            assert(cters.drop_last()[j] == cters[j]);
        }
        assert(first_cter(cters, id, i));
    }
}

/// Position of the first character with id `id`.
pub fn cter_position(cters: &Vec<BattleCharacter>, id: u32) -> (r: Option<usize>)
    ensures
        r is None <==> !has_cter(cters@, id),
        r matches Some(i) ==> first_cter(cters@, id, i as int),
{
    let mut i: usize = 0;
    while i < cters.len()
        invariant
            i <= cters@.len(),
            forall|j: int| 0 <= j < i ==> #[trigger] cters@[j].base_attr.cter_id != id,
        decreases cters.len() - i,
    {
        if cters[i].base_attr.cter_id == id {
            return Some(i);
        }
        i = i + 1;
    }
    None
}

/// `p1` is player `p0` after an event of kind `mt` worth `value` touched
/// its mission (see `mission_step`): `r` tells whether that completed it,
/// in which case the mission goes into the completed list and its reward
/// into the gold.
pub open spec fn stepped(p0: BattlePlayer, p1: BattlePlayer, value: u16, mt: MissionCompleteType, parm: (u32, u32), r: bool) -> bool {
    let st = mission_step(p0.mission_data.mission, value, mt, parm);
    &&& r == st.1
    &&& p1.mission_data.mission == st.0
    &&& p1.mission_data.history_list@ == p0.mission_data.history_list@
    &&& p1.mission_data.complete_list@ == if st.1 {
        p0.mission_data.complete_list@.push(p0.mission_data.mission.unwrap().mission_temp.id)
    } else {
        p0.mission_data.complete_list@
    }
    &&& p1.gold == if st.1 { gold_after(p0.gold, st.2 as i32) as i32 } else { p0.gold }
    &&& p1 == (BattlePlayer { mission_data: p1.mission_data, gold: p1.gold, ..p0 })
}

/// The gold after `value` is added: never below 0.
pub open spec fn gold_after(gold: i32, value: i32) -> int {
    if gold + value < 0 { 0 } else { gold + value }
}

/// The cut of the first buff in `bs` that lowers the cap on movement
/// points: its first parameter, cut to a byte.
pub open spec fn buff_move_cut(bs: Seq<Buff>) -> Option<int>
    decreases bs.len(),
{
    if bs.len() == 0 {
        None
    } else if bs[0].function_id == SUB_MOVE_POINT {
        Some((bs[0].buff_temp.par1 as u8) as int)
    } else {
        buff_move_cut(bs.drop_first())
    }
}

/// How far a buff that lowers the cap cuts the movement points: the cut of
/// the first such buff on the first character that carries one; 0 where
/// none does.
pub open spec fn move_point_cut(cters: Seq<BattleCharacter>) -> int
    decreases cters.len(),
{
    if cters.len() == 0 {
        0
    } else {
        match buff_move_cut(cters[0].battle_buffs.buffs@) {
            Some(v) => v,
            None => move_point_cut(cters.drop_first()),
        }
    }
}

/// The movement points of a turn: the configured number (the default where
/// none is configured), less the cut of a buff that lowers the cap.
pub open spec fn turn_movement_points(configured: Option<u8>, cters: Seq<BattleCharacter>) -> int {
    let base = match configured {
        Some(v) => v,
        None => TURN_DEFAULT_MOVEMENT_POINTS,
    };
    base - move_point_cut(cters)
}

impl BattlePlayer {
    pub fn get_user_id(&self) -> (r: u32)
        ensures
            r == self.user_id,
    {
        self.user_id
    }

    /// Whether the player is out of the battle: eliminated or offline.
    pub fn is_died(&self) -> (r: bool)
        ensures
            r == (self.status.battle_state != BattlePlayerState::Normal),
    {
        self.status.battle_state != BattlePlayerState::Normal
    }

    pub fn is_robot(&self) -> (r: bool)
        ensures
            r == self.robot_data is Some,
    {
        self.robot_data.is_some()
    }

    /// Whether the player's actions are locked.
    pub fn is_locked(&self) -> (r: bool)
        ensures
            r == (self.status.locked_oper > 0),
    {
        self.status.locked_oper > 0
    }

    pub fn clear_residue_movement_points(&mut self)
        ensures
            final(self).flow_data.residue_movement_points == 0,
            final(self).status == old(self).status,
            final(self).gold == old(self).gold,
    {
        self.flow_data.residue_movement_points = 0;
    }

    /// The major character.
    pub fn get_major_cter(&self) -> (r: &BattleCharacter)
        requires
            has_cter(self.cters@, self.major_cter.0),
        ensures
            exists|i: int| first_cter(self.cters@, self.major_cter.0, i) && *r == #[trigger] self.cters@[i],
    {
        let i = cter_position(&self.cters, self.major_cter.0).unwrap();
        &self.cters[i]
    }

    /// The character acting now.
    pub fn get_current_cter(&self) -> (r: &BattleCharacter)
        requires
            has_cter(self.cters@, self.current_cter.0),
        ensures
            exists|i: int| first_cter(self.cters@, self.current_cter.0, i) && *r == #[trigger] self.cters@[i],
    {
        let i = cter_position(&self.cters, self.current_cter.0).unwrap();
        &self.cters[i]
    }

    /// The major character, to be changed in place.
    pub fn get_major_cter_mut(&mut self) -> (r: &mut BattleCharacter)
        requires
            has_cter(old(self).cters@, old(self).major_cter.0),
        ensures
            exists|i: int| first_cter(old(self).cters@, old(self).major_cter.0, i)
                && *r == #[trigger] old(self).cters@[i]
                && final(self).cters@ == old(self).cters@.update(i, *final(r)),
            final(self).status == old(self).status,
            final(self).major_cter == old(self).major_cter,
            final(self).current_cter == old(self).current_cter,
            final(self).gold == old(self).gold,
    {
        let i = cter_position(&self.cters, self.major_cter.0).unwrap();
        &mut self.cters[i]
    }

    /// The character acting now, to be changed in place.
    pub fn get_current_cter_mut(&mut self) -> (r: &mut BattleCharacter)
        requires
            has_cter(old(self).cters@, old(self).current_cter.0),
        ensures
            exists|i: int| first_cter(old(self).cters@, old(self).current_cter.0, i)
                && *r == #[trigger] old(self).cters@[i]
                && final(self).cters@ == old(self).cters@.update(i, *final(r)),
            *final(self) == (BattlePlayer { cters: final(self).cters, ..*old(self) }),
            final(self).status == old(self).status,
            final(self).major_cter == old(self).major_cter,
            final(self).current_cter == old(self).current_cter,
            final(self).gold == old(self).gold,
    {
        let i = cter_position(&self.cters, self.current_cter.0).unwrap();
        &mut self.cters[i]
    }

    /// Configuration id of the character acting now.
    pub fn get_cter_temp_id(&self) -> (r: u32)
        requires
            has_cter(self.cters@, self.current_cter.0),
        ensures
            exists|i: int| first_cter(self.cters@, self.current_cter.0, i)
                && r == (#[trigger] self.cters@[i]).base_attr.cter_temp_id,
    {
        self.get_current_cter().get_cter_temp_id()
    }

    /// The cell of the character acting now (100 where it stands on none).
    pub fn get_current_cter_index(&self) -> (r: usize)
        requires
            has_cter(self.cters@, self.current_cter.0),
        ensures
            exists|i: int| first_cter(self.cters@, self.current_cter.0, i)
                && r == (#[trigger] self.cters@[i]).get_map_cell_index_spec(),
    {
        self.get_current_cter().get_map_cell_index()
    }

    /// The player is eliminated: the major character's hp goes to 0 and it dies.
    pub fn player_die(&mut self)
        requires
            has_cter(old(self).cters@, old(self).major_cter.0),
        ensures
            final(self).status == (BattleStatus { battle_state: BattlePlayerState::Died, ..old(self).status }),
            final(self).cters@.len() == old(self).cters@.len(),
            exists|i: int| #[trigger] first_cter(old(self).cters@, old(self).major_cter.0, i) && {
                let (o, n) = (old(self).cters@[i], final(self).cters@[i]);
                &&& n.base_attr == (BaseAttr { hp: 0, ..o.base_attr })
                &&& n.state == BattleCterState::Died
                &&& n.index_data == o.index_data
                &&& forall|j: int| 0 <= j < old(self).cters@.len() && j != i
                    ==> #[trigger] final(self).cters@[j] == old(self).cters@[j]
            },
            final(self).gold == old(self).gold,
            final(self).major_cter == old(self).major_cter,
    {
        let i = cter_position(&self.cters, self.major_cter.0).unwrap();
        self.cters[i].base_attr.hp = 0;
        self.cters[i].state = BattleCterState::Died;
        self.status.battle_state = BattlePlayerState::Died;
    }

    /// Records that cell `index` was opened this turn.
    pub fn add_open_map_cell(&mut self, index: usize)
        ensures
            final(self).flow_data.open_map_cell_vec_history@ == old(self).flow_data.open_map_cell_vec_history@.push(index),
            final(self).flow_data.open_map_cell_vec@ == old(self).flow_data.open_map_cell_vec@,
            final(self).status == old(self).status,
            *final(self) == (BattlePlayer { flow_data: final(self).flow_data, ..*old(self) }),
            final(self).flow_data == (TurnFlowData {
                open_map_cell_vec_history: final(self).flow_data.open_map_cell_vec_history,
                ..old(self).flow_data
            }),
    {
        self.flow_data.open_map_cell_vec_history.push(index);
    }

    /// Forgets the cells opened this turn.
    pub fn clear_turn_open_map_cell(&mut self)
        ensures
            final(self).flow_data.open_map_cell_vec@.len() == 0,
            final(self).flow_data.open_map_cell_vec_history@.len() == 0,
            final(self).flow_data.residue_movement_points == old(self).flow_data.residue_movement_points,
            final(self).status == old(self).status,
            final(self).cters@ == old(self).cters@,
            final(self).gold == old(self).gold,
            *final(self) == (BattlePlayer { flow_data: final(self).flow_data, ..*old(self) }),
            final(self).flow_data == (TurnFlowData {
                open_map_cell_vec: final(self).flow_data.open_map_cell_vec,
                open_map_cell_vec_history: final(self).flow_data.open_map_cell_vec_history,
                ..old(self).flow_data
            }),
    {
        self.flow_data.open_map_cell_vec.clear();
        self.flow_data.open_map_cell_vec_history.clear();
    }

    /// Adds `value` (which may be negative) to the gold, which never falls
    /// below 0. Returns the new gold.
    pub fn add_gold(&mut self, value: i32) -> (r: i32)
        requires
            i32::MIN <= old(self).gold + value <= i32::MAX,
        ensures
            r == final(self).gold,
            final(self).gold == gold_after(old(self).gold, value),
            *final(self) == (BattlePlayer { gold: final(self).gold, ..*old(self) }),
            final(self).status == old(self).status,
            final(self).cters@ == old(self).cters@,
            final(self).mission_data.mission == old(self).mission_data.mission,
            final(self).mission_data.complete_list@ == old(self).mission_data.complete_list@,
            final(self).mission_data.history_list@ == old(self).mission_data.history_list@,
    {
        self.gold = self.gold + value;
        if self.gold < 0 {
            self.gold = 0;
        }
        self.gold
    }

    /// Advances the player's mission (see `MissionData::add_progress`); where
    /// that completes it, the reward goes to the player's gold. Returns
    /// whether the mission was completed.
    pub fn add_mission_progress(&mut self, value: u16, mission_type: MissionCompleteType, mission_parm: (u32, u32)) -> (r: bool)
        requires
            step_ready(old(self).mission_data.mission, value, mission_type),
            old(self).gold + u16::MAX <= i32::MAX,
        ensures
            stepped(*old(self), *final(self), value, mission_type, mission_parm, r),
            final(self).mission_data.history_list@ == old(self).mission_data.history_list@,
            r ==> (old(self).mission_data.mission matches Some(m)
                && final(self).gold == gold_after(old(self).gold, m.mission_temp.complete_reward as i32)
                && final(self).mission_data.complete_list@ == old(self).mission_data.complete_list@.push(m.mission_temp.id)),
            !r ==> final(self).gold == old(self).gold
                && final(self).mission_data.complete_list@ == old(self).mission_data.complete_list@,
            final(self).status == old(self).status,
            final(self).cters@ == old(self).cters@,
    {
        let res = self.mission_data.add_progress(value, mission_type, mission_parm);
        if res.0 {
            self.add_gold(res.1 as i32);
            return true;
        }
        false
    }

    /// Whether the player may end the turn.
    pub fn get_is_can_end_turn(&self) -> (r: bool)
        ensures
            r == self.status.is_can_end_turn,
    {
        self.status.is_can_end_turn
    }

    pub fn set_is_can_end_turn(&mut self, value: bool)
        ensures
            final(self).status == (BattleStatus { is_can_end_turn: value, ..old(self).status }),
            final(self).cters@ == old(self).cters@,
    {
        self.status.is_can_end_turn = value;
    }

    pub fn is_can_attack(&self) -> (r: bool)
        ensures
            r == (self.status.attack_state == AttackState::Able),
    {
        self.status.attack_state == AttackState::Able
    }

    pub fn change_attack_able(&mut self)
        ensures
            final(self).status == (BattleStatus { attack_state: AttackState::Able, ..old(self).status }),
            final(self).cters@ == old(self).cters@,
            *final(self) == (BattlePlayer { status: final(self).status, ..*old(self) }),
    {
        self.status.attack_state = AttackState::Able;
    }

    pub fn change_attack_locked(&mut self)
        ensures
            final(self).status == (BattleStatus { attack_state: AttackState::Locked, ..old(self).status }),
            final(self).cters@ == old(self).cters@,
    {
        self.status.attack_state = AttackState::Locked;
    }

    pub fn change_attack_none(&mut self)
        ensures
            final(self).status == (BattleStatus { attack_state: AttackState::Invalid, ..old(self).status }),
            final(self).cters@ == old(self).cters@,
            *final(self) == (BattlePlayer { status: final(self).status, ..*old(self) }),
    {
        self.status.attack_state = AttackState::Invalid;
    }

    pub fn get_attack_state(&self) -> (r: AttackState)
        ensures
            r == self.status.attack_state,
    {
        self.status.attack_state
    }

    /// Forgets this turn's purchases.
    pub fn clear_turn_buy_times(&mut self)
        ensures
            final(self).merchandise_data.buy_map@ == Map::<u32, u8>::empty(),
            final(self).merchandise_data.buy_history@ == old(self).merchandise_data.buy_history@,
            final(self).status == old(self).status,
    {
        self.merchandise_data.clear_turn_buy_times();
    }

    /// Resets mission progress (see `MissionData::reset`).
    pub fn reset_mission(&mut self, reset_type: MissionResetType)
        requires
            old(self).mission_data.mission matches Some(m) ==> valid_condition(m.mission_temp.complete_condition),
        ensures
            final(self).mission_data.mission == match old(self).mission_data.mission {
                Some(m) => if reset_type == MissionResetType::Trun
                    && m.mission_temp.complete_condition == MissionCompleteType::TurnPairTimes.code() {
                    Some(Mission { progress: 0, ..m })
                } else {
                    Some(m)
                },
                None => None,
            },
            final(self).status == old(self).status,
    {
        self.mission_data.reset(reset_type);
    }

    /// Gives the player the movement points of a new turn: the configured
    /// number `configured` (the default where none is configured), less what
    /// a buff that lowers the cap takes.
    pub fn reset_residue_movement_points(&mut self, configured: Option<u8>)
        requires
            0 <= turn_movement_points(configured, old(self).cters@),
        ensures
            final(self).flow_data.residue_movement_points == turn_movement_points(configured, old(self).cters@),
            final(self).status == old(self).status,
            final(self).cters@ == old(self).cters@,
            final(self).gold == old(self).gold,
            *final(self) == (BattlePlayer {
                flow_data: TurnFlowData { residue_movement_points: final(self).flow_data.residue_movement_points, ..old(self).flow_data },
                ..*old(self)
            }),
    {
        let mut reward_count: u8 = match configured {
            Some(v) => v,
            None => TURN_DEFAULT_MOVEMENT_POINTS,
        };
        let ghost base = reward_count;
        let ghost all = self.cters@;
        proof {
            assert(all.skip(0) == all);
        }
        let mut c: usize = 0;
        while c < self.cters.len()
            invariant
                all == self.cters@,
                all == old(self).cters@,
                base == match configured { Some(v) => v, None => TURN_DEFAULT_MOVEMENT_POINTS },
                c <= all.len(),
                reward_count == base,
                move_point_cut(all) == move_point_cut(all.skip(c as int)),
                0 <= base - move_point_cut(all),
                *self == *old(self),
            decreases all.len() - c,
        {
            let ghost rest = all.skip(c as int);
            let ghost bs0 = all[c as int].battle_buffs.buffs@;
            proof {
                assert(rest[0] == all[c as int]);
                assert(rest.drop_first() == all.skip(c + 1));
                assert(bs0.skip(0) == bs0);
            }
            let mut k: usize = 0;
            while k < self.cters[c].battle_buffs.buffs.len()
                invariant
                    all == self.cters@,
                    all == old(self).cters@,
                    base == match configured { Some(v) => v, None => TURN_DEFAULT_MOVEMENT_POINTS },
                    c < all.len(),
                    k <= bs0.len(),
                    bs0 == all[c as int].battle_buffs.buffs@,
                    rest == all.skip(c as int),
                    rest[0] == all[c as int],
                    buff_move_cut(bs0) == buff_move_cut(bs0.skip(k as int)),
                    move_point_cut(all) == move_point_cut(rest),
                    reward_count == base,
                    0 <= base - move_point_cut(all),
                    *self == *old(self),
                decreases bs0.len() - k,
            {
                proof {
                    assert(bs0.skip(k as int)[0] == bs0[k as int]);
                    assert(bs0.skip(k as int).drop_first() == bs0.skip(k + 1));
                }
                if self.cters[c].battle_buffs.buffs[k].function_id == SUB_MOVE_POINT {
                    let cut = self.cters[c].battle_buffs.buffs[k].buff_temp.par1 as u8;
                    reward_count = reward_count - cut;
                    self.flow_data.residue_movement_points = reward_count;
                    return;
                }
                k = k + 1;
            }
            proof {
                assert(bs0.skip(k as int).len() == 0);
            }
            c = c + 1;
        }
        proof {
            assert(all.skip(c as int).len() == 0);
        }
        self.flow_data.residue_movement_points = reward_count;
    }

    /// After an attack from a pair, the player gets the movement points of a
    /// new turn once per turn (see `reset_residue_movement_points`).
    pub fn attack_reward_movement_points(&mut self, configured: Option<u8>)
        requires
            0 <= turn_movement_points(configured, old(self).cters@),
        ensures
            old(self).status.attack_reward_movement_points ==> final(self).flow_data.residue_movement_points
                == old(self).flow_data.residue_movement_points,
            !old(self).status.attack_reward_movement_points ==> final(self).flow_data.residue_movement_points
                == turn_movement_points(configured, old(self).cters@),
            final(self).status == (BattleStatus { attack_reward_movement_points: true, ..old(self).status }),
    {
        if self.status.attack_reward_movement_points {
            return;
        }
        self.status.attack_reward_movement_points = true;
        self.reset_residue_movement_points(configured);
    }

    /// The robot's memory of a robot player.
    pub fn get_robot_data_ref(&self) -> (r: Result<&RobotData, ()>)
        ensures
            match self.robot_data {
                Some(d) => r == Ok::<&RobotData, ()>(&d),
                None => r is Err,
            },
    {
        match &self.robot_data {
            Some(d) => Ok(d),
            None => Err(()),
        }
    }

    /// A robot forgets the cells it saw.
    pub fn robot_reset(&mut self)
        ensures
            match (old(self).robot_data, final(self).robot_data) {
                (Some(o), Some(n)) => n.robot_id == o.robot_id && n.remember_map_cell@.len() == 0,
                (None, None) => true,
                _ => false,
            },
            final(self).status == old(self).status,
            final(self).cters@ == old(self).cters@,
            *final(self) == (BattlePlayer { robot_data: final(self).robot_data, ..*old(self) }),
    {
        match &mut self.robot_data {
            Some(d) => {
                d.remember_map_cell.clear();
            },
            None => {},
        }
    }

    /// End of a turn: the pair-attack reward, the cells opened, the skills
    /// used once per turn, the attack state, the pair flag and the turn's
    /// purchases are reset, a per-turn mission restarts, and the player may
    /// not end the turn until allowed again.
    pub fn turn_end_reset(&mut self)
        requires
            old(self).mission_data.mission matches Some(m) ==> valid_condition(m.mission_temp.complete_condition),
        ensures
            final(self).status == (BattleStatus {
                attack_reward_movement_points: false,
                attack_state: AttackState::Invalid,
                is_pair: false,
                is_can_end_turn: false,
                ..old(self).status
            }),
            final(self).flow_data.open_map_cell_vec@.len() == 0,
            final(self).flow_data.open_map_cell_vec_history@.len() == 0,
            final(self).flow_data.turn_limit_skills@.len() == 0,
            final(self).flow_data.round_limit_skills@ == old(self).flow_data.round_limit_skills@,
            final(self).flow_data.residue_movement_points == old(self).flow_data.residue_movement_points,
            final(self).merchandise_data.buy_map@ == Map::<u32, u8>::empty(),
            final(self).merchandise_data.buy_history@ == old(self).merchandise_data.buy_history@,
            final(self).mission_data.mission == match old(self).mission_data.mission {
                Some(m) => if m.mission_temp.complete_condition == MissionCompleteType::TurnPairTimes.code() {
                    Some(Mission { progress: 0, ..m })
                } else {
                    Some(m)
                },
                None => None,
            },
            final(self).cters@ == old(self).cters@,
            final(self).gold == old(self).gold,
    {
        self.status.attack_reward_movement_points = false;
        self.flow_data.open_map_cell_vec.clear();
        self.flow_data.open_map_cell_vec_history.clear();
        self.flow_data.turn_limit_skills.clear();
        self.status.attack_state = AttackState::Invalid;
        self.status.is_pair = false;
        self.merchandise_data.clear_turn_buy_times();
        self.mission_data.reset(MissionResetType::Trun);
        self.status.is_can_end_turn = false;
    }

    /// Start of a turn: the player gets the movement points of a new turn.
    pub fn turn_start_reset(&mut self, configured: Option<u8>)
        requires
            0 <= turn_movement_points(configured, old(self).cters@),
        ensures
            final(self).flow_data.residue_movement_points == turn_movement_points(configured, old(self).cters@),
            final(self).status == old(self).status,
            final(self).cters@ == old(self).cters@,
    {
        self.reset_residue_movement_points(configured);
    }
}

/// The summoned characters of the characters `cs`, in order.
pub open spec fn all_minons(cs: Seq<BattleCharacter>) -> Seq<u32>
    decreases cs.len(),
{
    if cs.len() == 0 {
        Seq::empty()
    } else {
        all_minons(cs.drop_last()) + cs.last().minons@
    }
}

/// The positions of the characters of `cs` whose ids are not in `rm`.
pub open spec fn kept_positions(cs: Seq<BattleCharacter>, rm: Seq<u32>) -> Seq<int>
    decreases cs.len(),
{
    if cs.len() == 0 {
        Seq::empty()
    } else if rm.contains(cs.last().base_attr.cter_id) {
        kept_positions(cs.drop_last(), rm)
    } else {
        kept_positions(cs.drop_last(), rm).push(cs.len() - 1)
    }
}

/// `c1` is the characters `c0` with every summoned character taken out and
/// no character left with summoned ones.
pub open spec fn minons_cleared(c0: Seq<BattleCharacter>, c1: Seq<BattleCharacter>) -> bool {
    let kept = kept_positions(c0, all_minons(c0));
    &&& c1.len() == kept.len()
    &&& forall|k: int| 0 <= k < c1.len() ==> {
        &&& #[trigger] c1[k] == (BattleCharacter { minons: c1[k].minons, ..c0[kept[k]] })
        &&& c1[k].minons@.len() == 0
    }
}

proof fn lemma_kept_positions_bound(cs: Seq<BattleCharacter>, rm: Seq<u32>)
    ensures
        forall|k: int| 0 <= k < kept_positions(cs, rm).len() ==> 0 <= #[trigger] kept_positions(cs, rm)[k] < cs.len(),
    decreases cs.len(),
{
    if cs.len() > 0 {
        lemma_kept_positions_bound(cs.drop_last(), rm);
        let prev = kept_positions(cs.drop_last(), rm);
        let cur = kept_positions(cs, rm);
        assert forall|k: int| 0 <= k < cur.len() implies 0 <= #[trigger] cur[k] < cs.len() by {
            if k < prev.len() {
                assert(cur[k] == prev[k]);
            }
        }
    }
}

impl BattlePlayer {
    /// Summoned characters leave: every character's summoned ones are taken
    /// out of the player's characters, and the player acts with its major
    /// character again.
    pub fn minon_clear(&mut self)
        ensures
            minons_cleared(old(self).cters@, final(self).cters@),
            *final(self) == (BattlePlayer { cters: final(self).cters, current_cter: old(self).major_cter, ..*old(self) }),
    {
        let ghost c0 = self.cters@;
        let mut rm_v: Vec<u32> = Vec::new();
        let mut i: usize = 0;
        while i < self.cters.len()
            invariant
                i <= c0.len(),
                self.cters@ == c0,
                rm_v@ == all_minons(c0.take(i as int)),
            decreases c0.len() - i,
        {
            proof {
                assert(c0.take(i + 1).drop_last() =~= c0.take(i as int));
            }
            let mut k: usize = 0;
            let ghost before = rm_v@;
            while k < self.cters[i].minons.len()
                invariant
                    i < c0.len(),
                    self.cters@ == c0,
                    k <= c0[i as int].minons@.len(),
                    rm_v@ == before + c0[i as int].minons@.take(k as int),
                decreases c0[i as int].minons@.len() - k,
            {
                rm_v.push(self.cters[i].minons[k]);
                proof {
                    assert(c0[i as int].minons@.take(k + 1) =~= c0[i as int].minons@.take(k as int).push(c0[i as int].minons@[k as int]));
                }
                k = k + 1;
            }
            proof {
                assert(c0[i as int].minons@.take(c0[i as int].minons@.len() as int) =~= c0[i as int].minons@);
            }
            i = i + 1;
        }
        proof {
            assert(c0.take(c0.len() as int) =~= c0);
        }
        let ghost rm = rm_v@;
        let mut kept: Vec<BattleCharacter> = Vec::new();
        let mut rest = Vec::new();
        std::mem::swap(&mut rest, &mut self.cters);
        let mut j: usize = 0;
        let ghost orig = rest@;
        assert(orig == c0);
        assert(c0.len() == rest.len());
        while rest.len() > 0
            invariant
                orig == c0,
                rm == all_minons(c0),
                rm_v@ == rm,
                rest@ == c0.skip(j as int),
                j <= c0.len(),
                c0.len() <= usize::MAX,
                kept@.len() == kept_positions(c0.take(j as int), rm).len(),
                forall|k: int| 0 <= k < kept@.len() ==> {
                    &&& #[trigger] kept@[k] == (BattleCharacter { minons: kept@[k].minons, ..c0[kept_positions(c0.take(j as int), rm)[k]] })
                    &&& kept@[k].minons@.len() == 0
                },
                *self == (BattlePlayer { cters: self.cters, ..*old(self) }),
            decreases rest.len(),
        {
            let mut c = rest.remove(0);
            proof {
                assert(c == c0[j as int]);
                assert(rest@ =~= c0.skip(j + 1));
                assert(c0.take(j + 1).drop_last() =~= c0.take(j as int));
                assert(c0.take(j + 1).last() == c0[j as int]);
                lemma_kept_positions_bound(c0.take(j as int), rm);
            }
            let id = c.base_attr.cter_id;
            let mut found = false;
            let mut q: usize = 0;
            while q < rm_v.len()
                invariant
                    q <= rm_v@.len(),
                    found == exists|t: int| 0 <= t < q && #[trigger] rm_v@[t] == id,
                decreases rm_v@.len() - q,
            {
                if rm_v[q] == id {
                    found = true;
                }
                q = q + 1;
            }
            proof {
                assert(found == rm.contains(id));
            }
            if !found {
                c.minons = Vec::new();
                let ghost kb = kept@;
                kept.push(c);
                proof {
                    let kp = kept_positions(c0.take(j + 1), rm);
                    assert(kp == kept_positions(c0.take(j as int), rm).push(j as int));
                    assert forall|k: int| 0 <= k < kept@.len() implies {
                        &&& #[trigger] kept@[k] == (BattleCharacter { minons: kept@[k].minons, ..c0[kp[k]] })
                        &&& kept@[k].minons@.len() == 0
                    } by {
                        if k < kb.len() {
                            assert(kept@[k] == kb[k]);
                        }
                    }
                }
            }
            j = j + 1;
        }
        proof {
            assert(j == c0.len());
            assert(c0.take(j as int) =~= c0);
        }
        self.cters = kept;
        self.current_cter = self.major_cter;
    }

    /// End of a round: the attack flags are cleared, the character acting
    /// now leaves its cell (and forgets the one before), the cells opened
    /// and the skills used this round are forgotten, a robot forgets what
    /// it saw, and summoned characters leave (see `minon_clear`).
    pub fn round_reset(&mut self)
        requires
            has_cter(old(self).cters@, old(self).current_cter.0),
        ensures
            final(self).status == (BattleStatus {
                is_attacked: false,
                attack_state: AttackState::Invalid,
                attack_reward_movement_points: false,
                ..old(self).status
            }),
            exists|i: int| #[trigger] first_cter(old(self).cters@, old(self).current_cter.0, i)
                && minons_cleared(old(self).cters@.update(i, BattleCharacter {
                    index_data: IndexData { map_cell_index: None, last_map_cell_index: None },
                    ..old(self).cters@[i]
                }), final(self).cters@),
            final(self).current_cter == old(self).major_cter,
            final(self).flow_data.open_map_cell_vec@.len() == 0,
            final(self).flow_data.open_map_cell_vec_history@.len() == 0,
            final(self).flow_data.round_limit_skills@.len() == 0,
            final(self).robot_data is Some == old(self).robot_data is Some,
            final(self).robot_data matches Some(d) ==> d.remember_map_cell@.len() == 0,
            final(self).gold == old(self).gold,
            final(self).user_id == old(self).user_id,
    {
        let ci = cter_position(&self.cters, self.current_cter.0).unwrap();
        let ghost c_before = self.cters@;
        self.status.is_attacked = false;
        self.change_attack_none();
        self.status.attack_reward_movement_points = false;
        self.cters[ci].index_data.map_cell_index = None;
        self.clear_turn_open_map_cell();
        self.cters[ci].index_data.last_map_cell_index = None;
        self.flow_data.round_limit_skills.clear();
        self.robot_reset();
        let ghost c_mid = self.cters@;
        proof {
            assert(c_mid =~= c_before.update(ci as int, BattleCharacter {
                index_data: IndexData { map_cell_index: None, last_map_cell_index: None },
                ..c_before[ci as int]
            }));
        }
        self.minon_clear();
    }
}

/// A player's gold is never negative after gold is added or taken, and
/// taking gold never leaves more than there was.
pub proof fn lemma_gold_never_negative(gold: i32, value: i32)
    ensures
        gold_after(gold, value) >= 0,
        value <= 0 && gold >= 0 ==> gold_after(gold, value) <= gold,
{
}

/// A purchase counted by `add_buy_times` is seen by `get_turn_buy_times`:
/// the count of that merchandise is one more, and the counts of the others
/// do not change; after `clear_turn_buy_times` every count is 0.
pub proof fn law_buy_times_read_after_write(m: Map<u32, u8>, id: u32, other: u32)
    requires
        count_of(m, id, 0u8) < u8::MAX,
    ensures
        count_of(m.insert(id, (count_of(m, id, 0u8) + 1) as u8), id, 0u8) == count_of(m, id, 0u8) + 1,
        other != id ==> count_of(m.insert(id, (count_of(m, id, 0u8) + 1) as u8), other, 0u8) == count_of(m, other, 0u8),
        count_of(Map::<u32, u8>::empty(), id, 0u8) == 0,
{
}

} // verus!
