//! Missions: a player's current mission, its progress and completion.

use vstd::prelude::*;
use crate::battle::{BattleData, first_player, has_player, player_of, player_position};
use crate::battle_player::{BattlePlayer, first_cter, gold_after, has_cter, stepped};
use crate::battle_helper::current_cter_of;
use crate::battle::player_alive;
use crate::outside::random_index;

verus! {

/// Kind of mission notice.
#[derive(Debug, Clone, Copy, PartialEq, Eq, Structural)]
pub enum MissionNoticeType {
    /// a new mission
    New,
    /// a mission completed
    Complete,
}

impl MissionNoticeType {
    /// The number that stands for this variant on the wire and in configuration.
    pub open spec fn code(self) -> u32 {
        match self {
            MissionNoticeType::New => 1u32,
            MissionNoticeType::Complete => 2u32,
        }
    }

    pub fn into_u32(self) -> (r: u32)
        ensures
            r == self.code(),
    {
        match self {
            MissionNoticeType::New => 1,
            MissionNoticeType::Complete => 2,
        }
    }

    /// The variant whose code is `v`, if there is one.
    pub fn try_from_u32(v: u32) -> (r: Option<MissionNoticeType>)
        ensures
            r matches Some(e) ==> e.code() == v,
            r is None <==> !(v == 1 || v == 2),
    {
        if v == 1 {
            Some(MissionNoticeType::New)
        } else if v == 2 {
            Some(MissionNoticeType::Complete)
        } else {
            None
        }
    }
}

/// When mission progress is reset.
#[derive(Debug, Clone, Copy, PartialEq, Eq, Structural)]
pub enum MissionResetType {
    /// at the end of a turn
    Trun,
    /// at the end of a round
    Round,
}

impl MissionResetType {
    /// The number that stands for this variant on the wire and in configuration.
    pub open spec fn code(self) -> u8 {
        match self {
            MissionResetType::Trun => 1u8,
            MissionResetType::Round => 2u8,
        }
    }

    pub fn into_u8(self) -> (r: u8)
        ensures
            r == self.code(),
    {
        match self {
            MissionResetType::Trun => 1,
            MissionResetType::Round => 2,
        }
    }

    /// The variant whose code is `v`, if there is one.
    pub fn try_from_u8(v: u8) -> (r: Option<MissionResetType>)
        ensures
            r matches Some(e) ==> e.code() == v,
            r is None <==> !(v == 1 || v == 2),
    {
        if v == 1 {
            Some(MissionResetType::Trun)
        } else if v == 2 {
            Some(MissionResetType::Round)
        } else {
            None
        }
    }
}

/// Condition that completes a mission.
#[derive(Debug, Clone, Copy, PartialEq, Eq, Structural)]
pub enum MissionCompleteType {
    /// cells opened
    OpenCellTimes,
    /// pairs made
    PairTimes,
    /// cells of an element opened
    OpenCellElement,
    /// skills used
    UseSkillTimes,
    /// attacks on the player who attacked last turn
    AttackLastTurnUser,
    /// pairs made within one turn
    TurnPairTimes,
    /// gold collected
    GoldCount,
    /// pairs of an element made
    PairCellElement,
}

impl MissionCompleteType {
    /// The number that stands for this variant on the wire and in configuration.
    pub open spec fn code(self) -> u8 {
        match self {
            MissionCompleteType::OpenCellTimes => 1u8,
            MissionCompleteType::PairTimes => 2u8,
            MissionCompleteType::OpenCellElement => 3u8,
            MissionCompleteType::UseSkillTimes => 4u8,
            MissionCompleteType::AttackLastTurnUser => 5u8,
            MissionCompleteType::TurnPairTimes => 6u8,
            MissionCompleteType::GoldCount => 7u8,
            MissionCompleteType::PairCellElement => 8u8,
        }
    }

    pub fn into_u8(self) -> (r: u8)
        ensures
            r == self.code(),
    {
        match self {
            MissionCompleteType::OpenCellTimes => 1,
            MissionCompleteType::PairTimes => 2,
            MissionCompleteType::OpenCellElement => 3,
            MissionCompleteType::UseSkillTimes => 4,
            MissionCompleteType::AttackLastTurnUser => 5,
            MissionCompleteType::TurnPairTimes => 6,
            MissionCompleteType::GoldCount => 7,
            MissionCompleteType::PairCellElement => 8,
        }
    }

    /// The variant whose code is `v`, if there is one.
    pub fn try_from_u8(v: u8) -> (r: Option<MissionCompleteType>)
        ensures
            r matches Some(e) ==> e.code() == v,
            r is None <==> !(v == 1 || v == 2 || v == 3 || v == 4 || v == 5 || v == 6 || v == 7 || v == 8),
    {
        if v == 1 {
            Some(MissionCompleteType::OpenCellTimes)
        } else if v == 2 {
            Some(MissionCompleteType::PairTimes)
        } else if v == 3 {
            Some(MissionCompleteType::OpenCellElement)
        } else if v == 4 {
            Some(MissionCompleteType::UseSkillTimes)
        } else if v == 5 {
            Some(MissionCompleteType::AttackLastTurnUser)
        } else if v == 6 {
            Some(MissionCompleteType::TurnPairTimes)
        } else if v == 7 {
            Some(MissionCompleteType::GoldCount)
        } else if v == 8 {
            Some(MissionCompleteType::PairCellElement)
        } else {
            None
        }
    }
}

/// Kind of event that may advance a mission.
#[derive(Debug, Clone, Copy, PartialEq, Eq, Structural)]
pub enum MissionTriggerType {
    /// a cell was opened
    OpenCell,
    /// a pair was made
    Pair,
    /// an attack was made
    Attack,
    /// a skill was used
    UseSkill,
    /// gold was gained
    GetGold,
}

/// The configured values of a mission.
#[derive(Debug, Clone, Copy, PartialEq, Eq, Structural)]
pub struct MissionTemp {
    pub id: u32,
    /// code of the `MissionCompleteType` that completes the mission
    pub complete_condition: u8,
    pub complete_par1: u32,
    pub complete_par2: u32,
    pub complete_par3: u32,
    /// progress at which the mission is complete
    pub complete_value: u16,
    /// gold awarded on completion
    pub complete_reward: u16,
}

/// A mission in progress.
#[derive(Debug, Clone, Copy, PartialEq, Eq, Structural)]
pub struct Mission {
    pub progress: u16,
    pub is_complete: bool,
    pub mission_temp: MissionTemp,
}

/// A player's missions.
pub struct MissionData {
    /// the current mission
    pub mission: Option<Mission>,
    /// ids of the missions completed
    pub complete_list: Vec<u32>,
    /// ids of the missions taken
    pub history_list: Vec<u32>,
}

/// Whether a configured condition code names a completion condition.
pub open spec fn valid_condition(c: u8) -> bool {
    1 <= c <= 8
}

/// Whether a mission with this condition is advanced by an event only when
/// the event's element is the configured one.
pub open spec fn needs_element(t: MissionCompleteType) -> bool {
    t == MissionCompleteType::OpenCellElement || t == MissionCompleteType::PairCellElement
}

impl MissionData {
    /// No mission and no history.
    pub fn new() -> (r: MissionData)
        ensures
            r.mission is None,
            r.complete_list@ == Seq::<u32>::empty(),
            r.history_list@ == Seq::<u32>::empty(),
    {
        MissionData { mission: None, complete_list: Vec::new(), history_list: Vec::new() }
    }

    /// Id of the current mission, 0 where there is none.
    pub fn get_last_mission(&self) -> (r: u32)
        ensures
            r == match self.mission {
                Some(m) => m.mission_temp.id,
                None => 0,
            },
    {
        match &self.mission {
            Some(m) => m.mission_temp.id,
            None => 0,
        }
    }

    /// Takes a new mission, which goes into the history.
    pub fn new_mission(&mut self, mission_temp: MissionTemp)
        ensures
            final(self).mission == Some(Mission { progress: 0, is_complete: false, mission_temp }),
            final(self).history_list@ == old(self).history_list@.push(mission_temp.id),
            final(self).complete_list@ == old(self).complete_list@,
    {
        self.mission = Some(Mission { progress: 0, is_complete: false, mission_temp });
        self.history_list.push(mission_temp.id);
    }

    /// Whether the current mission is complete; false where there is none.
    pub fn is_complete(&self) -> (r: bool)
        ensures
            r == match self.mission {
                Some(m) => m.is_complete,
                None => false,
            },
    {
        match &self.mission {
            Some(m) => m.is_complete,
            None => false,
        }
    }

    /// Resets progress: at the end of a turn, a mission counting the pairs of
    /// one turn starts again from 0; nothing else changes.
    pub fn reset(&mut self, reset_type: MissionResetType)
        requires
            old(self).mission matches Some(m) ==> valid_condition(m.mission_temp.complete_condition),
        ensures
            final(self).mission == match old(self).mission {
                Some(m) => if reset_type == MissionResetType::Trun
                    && m.mission_temp.complete_condition == MissionCompleteType::TurnPairTimes.code() {
                    Some(Mission { progress: 0, ..m })
                } else {
                    Some(m)
                },
                None => None,
            },
            final(self).complete_list@ == old(self).complete_list@,
            final(self).history_list@ == old(self).history_list@,
    {
        match self.mission {
            None => {},
            Some(m) => {
                let complete_type = MissionCompleteType::try_from_u8(m.mission_temp.complete_condition).unwrap();
                match reset_type {
                    MissionResetType::Trun => match complete_type {
                        MissionCompleteType::TurnPairTimes => {
                            self.mission = Some(Mission { progress: 0, ..m });
                        },
                        _ => {},
                    },
                    MissionResetType::Round => {},
                }
            },
        }
    }

    /// Advances the current mission by `value` where `mission_type` is its
    /// condition (and, for a condition on an element, where the event's
    /// element `misson_parm.0` is the configured one). Returns whether the
    /// mission is completed by this call, and the gold it awards then.
    pub fn add_progress(&mut self, value: u16, mission_type: MissionCompleteType, misson_parm: (u32, u32)) -> (r: (bool, u16))
        requires
            step_ready(old(self).mission, value, mission_type),
        ensures
            (final(self).mission, r.0, r.1) == mission_step(old(self).mission, value, mission_type, misson_parm),
            ({
                match old(self).mission {
                    None => r == (false, 0u16) && final(self).mission == old(self).mission
                        && final(self).complete_list@ == old(self).complete_list@,
                    Some(m) => {
                        if m.is_complete || m.mission_temp.complete_condition != mission_type.code() {
                            r == (false, 0u16) && final(self).mission == old(self).mission
                                && final(self).complete_list@ == old(self).complete_list@
                        } else {
                            let gained = if needs_element(mission_type) && misson_parm.0 != m.mission_temp.complete_par1 { 0 } else { value as int };
                            let p = (m.progress + gained) as u16;
                            if p >= m.mission_temp.complete_value {
                                &&& r == (true, m.mission_temp.complete_reward)
                                &&& final(self).mission == Some(Mission { progress: p, is_complete: true, ..m })
                                &&& final(self).complete_list@ == old(self).complete_list@.push(m.mission_temp.id)
                            } else {
                                &&& r == (false, 0u16)
                                &&& final(self).mission == Some(Mission { progress: p, ..m })
                                &&& final(self).complete_list@ == old(self).complete_list@
                            }
                        }
                    },
                }
            }),
            final(self).history_list@ == old(self).history_list@,
    {
        if self.is_complete() || self.mission.is_none() {
            return (false, 0);
        }
        let mut mission = self.mission.unwrap();
        let mission_id = mission.mission_temp.id;
        let complete_par1 = mission.mission_temp.complete_par1;
        let complete_value = mission.mission_temp.complete_value;
        let complete_reward = mission.mission_temp.complete_reward;
        let temp_type = MissionCompleteType::try_from_u8(mission.mission_temp.complete_condition).unwrap();
        if temp_type != mission_type {
            return (false, 0);
        }
        match mission_type {
            MissionCompleteType::OpenCellElement | MissionCompleteType::PairCellElement => {
                let element = misson_parm.0;
                if element == complete_par1 {
                    mission.progress = mission.progress + value;
                }
            },
            _ => {
                mission.progress = mission.progress + value;
            },
        }
        if mission.progress >= complete_value {
            mission.is_complete = true;
            self.mission = Some(mission);
            self.complete_list.push(mission_id);
            return (true, complete_reward);
        }
        self.mission = Some(mission);
        (false, 0)
    }
}

/// What the mission `m` becomes when an event of kind `mt` worth `value`
/// happens (see `MissionData::add_progress`), whether that completes it,
/// and the gold it then awards.
pub open spec fn mission_step(m: Option<Mission>, value: u16, mt: MissionCompleteType, parm: (u32, u32)) -> (Option<Mission>, bool, u16) {
    match m {
        None => (None, false, 0u16),
        Some(m) => {
            if m.is_complete || m.mission_temp.complete_condition != mt.code() {
                (Some(m), false, 0u16)
            } else {
                let gained = if needs_element(mt) && parm.0 != m.mission_temp.complete_par1 { 0 } else { value as int };
                let p = (m.progress + gained) as u16;
                if p >= m.mission_temp.complete_value {
                    (Some(Mission { progress: p, is_complete: true, ..m }), true, m.mission_temp.complete_reward)
                } else {
                    (Some(Mission { progress: p, ..m }), false, 0u16)
                }
            }
        },
    }
}

/// What an event of kind `mt` worth `value` needs of the mission `m`: an
/// incomplete mission names a known condition, and where the event counts
/// for it, its progress has room for the value.
pub open spec fn step_ready(m: Option<Mission>, value: u16, mt: MissionCompleteType) -> bool {
    match m {
        Some(m) => !m.is_complete ==> {
            &&& valid_condition(m.mission_temp.complete_condition)
            &&& m.mission_temp.complete_condition == mt.code() ==> m.progress + value <= u16::MAX
        },
        None => true,
    }
}

/// Ids of the missions a new mission may be drawn from: the missions without
/// a condition that the player has not taken yet, or, where the player has
/// taken them all, every one but the current.
pub open spec fn mission_candidates(no_condition: Seq<u32>, history: Seq<u32>, last: u32) -> Seq<u32> {
    let fresh = no_condition.filter(not_taken(history));
    if fresh.len() > 0 {
        fresh
    } else {
        no_condition.filter(other_than(last))
    }
}

/// The ids of a list of mission configurations.
pub open spec fn temp_ids(s: Seq<MissionTemp>) -> Seq<u32> {
    s.map_values(|t: MissionTemp| t.id)
}

/// Holds of the ids not in `history`.
pub open spec fn not_taken(history: Seq<u32>) -> spec_fn(u32) -> bool {
    |id: u32| !history.contains(id)
}

/// Holds of the ids other than `last`.
pub open spec fn other_than(last: u32) -> spec_fn(u32) -> bool {
    |id: u32| id != last
}

/// The ids of the missions a new mission may be drawn from.
pub fn candidate_missions(no_condition: &Vec<u32>, history: &Vec<u32>, last: u32) -> (r: Vec<u32>)
    ensures
        r@ == mission_candidates(no_condition@, history@, last),
{
    let mut fresh: Vec<u32> = Vec::new();
    let mut i: usize = 0;
    while i < no_condition.len()
        invariant
            i <= no_condition@.len(),
            fresh@ == no_condition@.take(i as int).filter(not_taken(history@)),
        decreases no_condition.len() - i,
    {
        let id = no_condition[i];
        proof {
            assert(no_condition@.take(i + 1) == no_condition@.take(i as int).push(id));
            no_condition@.take(i as int).lemma_filter_push(id, not_taken(history@));
        }
        if !vec_contains(history, id) {
            fresh.push(id);
        }
        i = i + 1;
    }
    proof {
        assert(no_condition@.take(no_condition@.len() as int) == no_condition@);
    }
    if fresh.len() > 0 {
        return fresh;
    }
    let mut rest: Vec<u32> = Vec::new();
    let mut i: usize = 0;
    while i < no_condition.len()
        invariant
            i <= no_condition@.len(),
            rest@ == no_condition@.take(i as int).filter(other_than(last)),
            no_condition@.filter(not_taken(history@)).len() == 0,
        decreases no_condition.len() - i,
    {
        let id = no_condition[i];
        proof {
            assert(no_condition@.take(i + 1) == no_condition@.take(i as int).push(id));
            no_condition@.take(i as int).lemma_filter_push(id, other_than(last));
        }
        if id != last {
            rest.push(id);
        }
        i = i + 1;
    }
    proof {
        assert(no_condition@.take(no_condition@.len() as int) == no_condition@);
    }
    rest
}

/// Whether `x` occurs in `v`.
pub fn vec_contains(v: &Vec<u32>, x: u32) -> (r: bool)
    ensures
        r == v@.contains(x),
{
    let mut i: usize = 0;
    while i < v.len()
        invariant
            i <= v@.len(),
            forall|j: int| 0 <= j < i ==> v@[j] != x,
        decreases v.len() - i,
    {
        if v[i] == x {
            proof {
                assert(v@[i as int] == x);
            }
            return true;
        }
        i = i + 1;
    }
    false
}

/// Gives the player the mission at position `pick` among the candidates
/// (see `mission_candidates`) drawn from the missions without a condition.
pub fn assign_mission(mission_data: &mut MissionData, no_condition: &Vec<MissionTemp>, pick: usize) -> (r: Option<u32>)
    ensures
        ({
            let ids = temp_ids(no_condition@);
            let cands = mission_candidates(ids, old(mission_data).history_list@,
                match old(mission_data).mission { Some(m) => m.mission_temp.id, None => 0 });
            if pick < cands.len() {
                &&& r == Some(cands[pick as int])
                &&& exists|k: int| 0 <= k < no_condition@.len() && no_condition@[k].id == cands[pick as int]
                    && (forall|j: int| 0 <= j < k ==> #[trigger] no_condition@[j].id != cands[pick as int])
                    && final(mission_data).mission == Some(Mission { progress: 0, is_complete: false, mission_temp: no_condition@[k] })
                &&& final(mission_data).history_list@ == old(mission_data).history_list@.push(cands[pick as int])
            } else {
                &&& r is None
                &&& final(mission_data).mission == old(mission_data).mission
                &&& final(mission_data).history_list@ == old(mission_data).history_list@
            }
        }),
        final(mission_data).complete_list@ == old(mission_data).complete_list@,
{
    let ghost ids = temp_ids(no_condition@);
    let mut id_list: Vec<u32> = Vec::new();
    let mut i: usize = 0;
    while i < no_condition.len()
        invariant
            i <= no_condition@.len(),
            ids == temp_ids(no_condition@),
            id_list@ == ids.take(i as int),
        decreases no_condition.len() - i,
    {
        id_list.push(no_condition[i].id);
        proof {
            assert(ids.take(i + 1) == ids.take(i as int).push(ids[i as int]));
        }
        i = i + 1;
    }
    proof {
        assert(ids.take(ids.len() as int) == ids);
    }
    let last = mission_data.get_last_mission();
    let cands = candidate_missions(&id_list, &mission_data.history_list, last);
    if pick >= cands.len() {
        return None;
    }
    let temp_id = cands[pick];
    let mut k: usize = 0;
    proof {
        broadcast use vstd::seq_lib::group_filter_ensures;
        let c = mission_candidates(ids, old(mission_data).history_list@, last);
        assert(c[pick as int] == temp_id);
        assert(c.contains(temp_id));
        if ids.filter(not_taken(old(mission_data).history_list@)).len() > 0 {
            ids.lemma_filter_contains_rev(not_taken(old(mission_data).history_list@), temp_id);
        } else {
            ids.lemma_filter_contains_rev(other_than(last), temp_id);
        }
        assert(ids.contains(temp_id));
    }
    while k < no_condition.len()
        invariant
            k <= no_condition@.len(),
            ids == temp_ids(no_condition@),
            ids.contains(temp_id),
            last == match old(mission_data).mission { Some(m) => m.mission_temp.id, None => 0 },
            pick < mission_candidates(ids, old(mission_data).history_list@, last).len(),
            temp_id == mission_candidates(ids, old(mission_data).history_list@, last)[pick as int],
            forall|j: int| 0 <= j < k ==> #[trigger] no_condition@[j].id != temp_id,
            mission_data.history_list@ == old(mission_data).history_list@,
            mission_data.complete_list@ == old(mission_data).complete_list@,
            mission_data.mission == old(mission_data).mission,
        decreases no_condition.len() - k,
    {
        if no_condition[k].id == temp_id {
            mission_data.new_mission(no_condition[k]);
            return Some(temp_id);
        }
        k = k + 1;
    }
    proof {
        let j = choose|j: int| 0 <= j < ids.len() && ids[j] == temp_id;
        assert(no_condition@[j].id == temp_id);
    }
    None
}

/// Id of a player's current mission, 0 where there is none.
pub open spec fn mission_last(md: MissionData) -> u32 {
    match md.mission {
        Some(m) => m.mission_temp.id,
        None => 0,
    }
}

/// The missions player `user_id` may be given next (see `mission_candidates`).
pub open spec fn player_mission_candidates(bd: BattleData, user_id: u32, temps: Seq<MissionTemp>) -> Seq<u32> {
    let md = player_of(bd.battle_player@, user_id).mission_data;
    mission_candidates(temp_ids(temps), md.history_list@, mission_last(md))
}

/// `new` is `old` after the mission with id `id` (the first configuration
/// of `temps` with that id) was taken.
pub open spec fn mission_taken(old: MissionData, new: MissionData, temps: Seq<MissionTemp>, id: u32) -> bool {
    &&& exists|k: int| 0 <= k < temps.len() && temps[k].id == id
        && (forall|j: int| 0 <= j < k ==> #[trigger] temps[j].id != id)
        && new.mission == Some(Mission { progress: 0, is_complete: false, mission_temp: temps[k] })
    &&& new.history_list@ == old.history_list@.push(id)
    &&& new.complete_list@ == old.complete_list@
}

/// The ids of a list of mission configurations.
fn mission_ids(temps: &Vec<MissionTemp>) -> (r: Vec<u32>)
    ensures
        r@ == temp_ids(temps@),
{
    let ghost ids = temp_ids(temps@);
    let mut v: Vec<u32> = Vec::new();
    let mut i: usize = 0;
    while i < temps.len()
        invariant
            i <= temps@.len(),
            ids == temp_ids(temps@),
            v@ == ids.take(i as int),
        decreases temps.len() - i,
    {
        v.push(temps[i].id);
        proof {
            assert(ids.take(i + 1) == ids.take(i as int).push(ids[i as int]));
        }
        i = i + 1;
    }
    proof {
        assert(ids.take(ids.len() as int) == ids);
    }
    v
}

/// Gives player `user_id` a new mission drawn at random among those it may
/// be given (see `player_mission_candidates`), from the missions without a
/// condition `no_condition`; returns its id.
pub fn random_mission(battle_data: &mut BattleData, user_id: u32, no_condition: &Vec<MissionTemp>) -> (r: u32)
    requires
        has_player(old(battle_data).battle_player@, user_id),
        player_mission_candidates(*old(battle_data), user_id, no_condition@).len() > 0,
    ensures
        player_mission_candidates(*old(battle_data), user_id, no_condition@).contains(r),
        exists|i: int| #[trigger] first_player(old(battle_data).battle_player@, user_id, i)
            && final(battle_data).battle_player@ == old(battle_data).battle_player@.update(i,
                BattlePlayer { mission_data: final(battle_data).battle_player@[i].mission_data, ..old(battle_data).battle_player@[i] })
            && mission_taken(old(battle_data).battle_player@[i].mission_data, final(battle_data).battle_player@[i].mission_data,
                no_condition@, r),
        final(battle_data).tile_map == old(battle_data).tile_map,
        final(battle_data).turn_orders == old(battle_data).turn_orders,
        final(battle_data).next_turn_index == old(battle_data).next_turn_index,
{
    let ghost old_ps = battle_data.battle_player@;
    let pos = match player_position(&battle_data.battle_player, user_id) {
        Some(i) => i,
        None => {
            assert(false);
            return 0;
        },
    };
    proof {
        let q = choose|q: int| first_player(old_ps, user_id, q);
        crate::battle::lemma_first_player_unique(old_ps, user_id, pos as int, q);
    }
    let ids = mission_ids(no_condition);
    let last = battle_data.battle_player[pos].mission_data.get_last_mission();
    let cands = candidate_missions(&ids, &battle_data.battle_player[pos].mission_data.history_list, last);
    let pick = random_index(cands.len());
    let mut p = battle_data.battle_player.remove(pos);
    let ghost old_p = p;
    let r = assign_mission(&mut p.mission_data, no_condition, pick);
    battle_data.battle_player.insert(pos, p);
    proof {
        assert(battle_data.battle_player@ =~= old_ps.update(pos as int,
            BattlePlayer { mission_data: battle_data.battle_player@[pos as int].mission_data, ..old_ps[pos as int] }));
        assert(cands@[pick as int] == cands@[pick as int]);
        assert(player_mission_candidates(*old(battle_data), user_id, no_condition@).contains(cands@[pick as int]));
    }
    match r {
        Some(id) => id,
        None => {
            assert(false);
            0
        },
    }
}

/// Distinct variants of `MissionNoticeType` have distinct numbers, so the variant read
/// back from a variant's number is that variant.
pub proof fn law_mission_notice_type_codes_distinct(a: MissionNoticeType, b: MissionNoticeType)
    ensures
        a.code() == b.code() ==> a == b,
{
}

/// Distinct variants of `MissionResetType` have distinct numbers, so the variant read
/// back from a variant's number is that variant.
pub proof fn law_mission_reset_type_codes_distinct(a: MissionResetType, b: MissionResetType)
    ensures
        a.code() == b.code() ==> a == b,
{
}

/// Distinct variants of `MissionCompleteType` have distinct numbers, so the variant read
/// back from a variant's number is that variant.
pub proof fn law_mission_complete_type_codes_distinct(a: MissionCompleteType, b: MissionCompleteType)
    ensures
        a.code() == b.code() ==> a == b,
{
}

/// The kind among `mts` that counts for mission `m`: the one whose code is
/// its condition, else (where none is, and nothing counts) the first.
pub open spec fn pick_type(mts: Seq<MissionCompleteType>, m: Option<Mission>) -> MissionCompleteType {
    match m {
        Some(m) => if exists|i: int| 0 <= i < mts.len() && #[trigger] mts[i].code() == m.mission_temp.complete_condition {
            mts[choose|i: int| 0 <= i < mts.len() && #[trigger] mts[i].code() == m.mission_temp.complete_condition]
        } else {
            mts[0]
        },
        None => mts[0],
    }
}

/// What events of the kinds `mts` worth `value` need of player `p`: each
/// may touch the mission, and a completion's reward fits in the gold.
pub open spec fn steps_ready(p: BattlePlayer, value: u16, mts: Seq<MissionCompleteType>) -> bool {
    &&& forall|i: int| 0 <= i < mts.len() ==> step_ready(p.mission_data.mission, value, #[trigger] mts[i])
    &&& p.gold + u16::MAX <= i32::MAX
}

/// Player `p` after the kinds `mts` were tried in turn until one completed
/// its mission: at most one of them counts, so it is one step of `pick_type`.
pub open spec fn progressed(bd0: BattleData, bd1: BattleData, user_id: u32, value: u16, mts: Seq<MissionCompleteType>,
    parm: (u32, u32), r: bool) -> bool {
    if !has_player(bd0.battle_player@, user_id) || !player_alive(player_of(bd0.battle_player@, user_id)) {
        !r && bd1 == bd0
    } else {
        exists|i: int| #[trigger] first_player(bd0.battle_player@, user_id, i)
            && bd1 == (BattleData { battle_player: bd1.battle_player, ..bd0 })
            && bd1.battle_player@ == bd0.battle_player@.update(i, bd1.battle_player@[i])
            && stepped(bd0.battle_player@[i], bd1.battle_player@[i], value,
                pick_type(mts, bd0.battle_player@[i].mission_data.mission), parm, r)
    }
}

/// The position of the player an event touches, where it is in the battle.
fn event_player(bd: &BattleData, user_id: u32) -> (r: Option<usize>)
    ensures
        (!has_player(bd.battle_player@, user_id) || !player_alive(player_of(bd.battle_player@, user_id))) <==> r is None,
        r matches Some(i) ==> first_player(bd.battle_player@, user_id, i as int)
            && bd.battle_player@[i as int] == player_of(bd.battle_player@, user_id),
{
    match bd.get_battle_player_pos(user_id, true) {
        Ok(i) => Some(i),
        Err(_) => None,
    }
}

/// Tries two kinds of event in turn on a player's mission.
fn progress_two(p: &mut BattlePlayer, t1: MissionCompleteType, t2: MissionCompleteType, value: u16, parm: (u32, u32)) -> (r: bool)
    requires
        t1.code() != t2.code(),
        steps_ready(*old(p), value, seq![t1, t2]),
    ensures
        stepped(*old(p), *final(p), value, pick_type(seq![t1, t2], old(p).mission_data.mission), parm, r),
{
    let ghost p0 = *p;
    proof {
        assert(seq![t1, t2][0] == t1);
        assert(seq![t1, t2][1] == t2);
    }
    if p.add_mission_progress(value, t1, parm) {
        return true;
    }
    let r = p.add_mission_progress(value, t2, parm);
    r
}

/// Tries three kinds of event in turn on a player's mission.
fn progress_three(p: &mut BattlePlayer, t1: MissionCompleteType, t2: MissionCompleteType, t3: MissionCompleteType,
    value: u16, parm: (u32, u32)) -> (r: bool)
    requires
        t1.code() != t2.code(),
        t1.code() != t3.code(),
        t2.code() != t3.code(),
        steps_ready(*old(p), value, seq![t1, t2, t3]),
    ensures
        stepped(*old(p), *final(p), value, pick_type(seq![t1, t2, t3], old(p).mission_data.mission), parm, r),
{
    let ghost p0 = *p;
    proof {
        assert(seq![t1, t2, t3][0] == t1);
        assert(seq![t1, t2, t3][1] == t2);
        assert(seq![t1, t2, t3][2] == t3);
    }
    if p.add_mission_progress(value, t1, parm) {
        return true;
    }
    if p.add_mission_progress(value, t2, parm) {
        return true;
    }
    let r = p.add_mission_progress(value, t3, parm);
    r
}

/// The mission kinds an event of kind `tt` may advance, tried in this order.
pub open spec fn trigger_kinds(tt: MissionTriggerType) -> Seq<MissionCompleteType> {
    match tt {
        MissionTriggerType::OpenCell => seq![MissionCompleteType::OpenCellTimes, MissionCompleteType::OpenCellElement],
        MissionTriggerType::Pair => seq![MissionCompleteType::PairTimes, MissionCompleteType::TurnPairTimes,
            MissionCompleteType::PairCellElement],
        MissionTriggerType::Attack => seq![MissionCompleteType::AttackLastTurnUser],
        MissionTriggerType::UseSkill => seq![MissionCompleteType::UseSkillTimes],
        MissionTriggerType::GetGold => seq![MissionCompleteType::GoldCount],
    }
}

/// What an event of kind `tt` worth `value` does (see the `*_trigger_mission`
/// functions): an attack counts only on the player who attacked last turn
/// (`parm.0`); any other event tries its kinds (see `progressed`).
pub open spec fn trigger_step(bd0: BattleData, bd1: BattleData, user_id: u32, tt: MissionTriggerType, value: u16,
    parm: (u32, u32), r: bool) -> bool {
    if tt == MissionTriggerType::Attack && has_player(bd0.battle_player@, user_id)
        && player_alive(player_of(bd0.battle_player@, user_id))
        && current_cter_of(player_of(bd0.battle_player@, user_id)).revenge_user_id != parm.0 {
        !r && bd1 == bd0
    } else {
        progressed(bd0, bd1, user_id, value, trigger_kinds(tt), parm, r)
    }
}

/// What an event of kind `tt` worth `value` needs of player `user_id`.
pub open spec fn trigger_ready(bd: BattleData, user_id: u32, tt: MissionTriggerType, value: u16) -> bool {
    has_player(bd.battle_player@, user_id) && player_alive(player_of(bd.battle_player@, user_id)) ==> {
        let p = player_of(bd.battle_player@, user_id);
        &&& steps_ready(p, value, trigger_kinds(tt))
        &&& tt == MissionTriggerType::Attack ==> has_cter(p.cters@, p.current_cter.0)
    }
}

/// A cell was opened: advances a mission on opened cells (see `trigger_step`).
pub fn open_cell_trigger_mission(battle_data: &mut BattleData, user_id: u32, value: u16, mission_parm: (u32, u32)) -> (r: bool)
    requires
        trigger_ready(*old(battle_data), user_id, MissionTriggerType::OpenCell, value),
    ensures
        trigger_step(*old(battle_data), *final(battle_data), user_id, MissionTriggerType::OpenCell, value, mission_parm, r),
{
    let i = match event_player(battle_data, user_id) {
        None => return false,
        Some(i) => i,
    };
    let ghost ps = battle_data.battle_player@;
    let mut p = battle_data.battle_player.remove(i);
    let r = progress_two(&mut p, MissionCompleteType::OpenCellTimes, MissionCompleteType::OpenCellElement, value, mission_parm);
    battle_data.battle_player.insert(i, p);
    assert(battle_data.battle_player@ =~= ps.update(i as int, battle_data.battle_player@[i as int]));
    r
}

/// A pair was made: advances a mission on pairs (see `trigger_step`).
pub fn pair_cell_trigger_mission(battle_data: &mut BattleData, user_id: u32, value: u16, mission_parm: (u32, u32)) -> (r: bool)
    requires
        trigger_ready(*old(battle_data), user_id, MissionTriggerType::Pair, value),
    ensures
        trigger_step(*old(battle_data), *final(battle_data), user_id, MissionTriggerType::Pair, value, mission_parm, r),
{
    let i = match event_player(battle_data, user_id) {
        None => return false,
        Some(i) => i,
    };
    let ghost ps = battle_data.battle_player@;
    let mut p = battle_data.battle_player.remove(i);
    let r = progress_three(&mut p, MissionCompleteType::PairTimes, MissionCompleteType::TurnPairTimes,
        MissionCompleteType::PairCellElement, value, mission_parm);
    battle_data.battle_player.insert(i, p);
    assert(battle_data.battle_player@ =~= ps.update(i as int, battle_data.battle_player@[i as int]));
    r
}

/// One kind of event tried on a player's mission.
fn progress_one(battle_data: &mut BattleData, i: usize, mt: MissionCompleteType, value: u16, mission_parm: (u32, u32)) -> (r: bool)
    requires
        i < old(battle_data).battle_player@.len(),
        steps_ready(old(battle_data).battle_player@[i as int], value, seq![mt]),
    ensures
        *final(battle_data) == (BattleData { battle_player: final(battle_data).battle_player, ..*old(battle_data) }),
        final(battle_data).battle_player@ == old(battle_data).battle_player@.update(i as int, final(battle_data).battle_player@[i as int]),
        stepped(old(battle_data).battle_player@[i as int], final(battle_data).battle_player@[i as int], value,
            pick_type(seq![mt], old(battle_data).battle_player@[i as int].mission_data.mission), mission_parm, r),
{
    let ghost ps = battle_data.battle_player@;
    let mut p = battle_data.battle_player.remove(i);
    proof {
        assert(seq![mt][0] == mt);
    }
    let r = p.add_mission_progress(value, mt, mission_parm);
    battle_data.battle_player.insert(i, p);
    assert(battle_data.battle_player@ =~= ps.update(i as int, battle_data.battle_player@[i as int]));
    r
}

/// A skill was used: advances a mission on skills (see `trigger_step`).
pub fn skill_times_trigger_mission(battle_data: &mut BattleData, user_id: u32, value: u16, mission_parm: (u32, u32)) -> (r: bool)
    requires
        trigger_ready(*old(battle_data), user_id, MissionTriggerType::UseSkill, value),
    ensures
        trigger_step(*old(battle_data), *final(battle_data), user_id, MissionTriggerType::UseSkill, value, mission_parm, r),
{
    match event_player(battle_data, user_id) {
        None => false,
        Some(i) => progress_one(battle_data, i, MissionCompleteType::UseSkillTimes, value, mission_parm),
    }
}

/// Gold was gained: advances a mission on gold (see `trigger_step`).
pub fn get_gold_trigger_mission(battle_data: &mut BattleData, user_id: u32, value: u16, mission_parm: (u32, u32)) -> (r: bool)
    requires
        trigger_ready(*old(battle_data), user_id, MissionTriggerType::GetGold, value),
    ensures
        trigger_step(*old(battle_data), *final(battle_data), user_id, MissionTriggerType::GetGold, value, mission_parm, r),
{
    match event_player(battle_data, user_id) {
        None => false,
        Some(i) => progress_one(battle_data, i, MissionCompleteType::GoldCount, value, mission_parm),
    }
}

/// An attack was made on player `mission_parm.0`: advances a mission on
/// revenge where that player attacked last turn (see `trigger_step`).
pub fn attack_trigger_mission(battle_data: &mut BattleData, user_id: u32, value: u16, mission_parm: (u32, u32)) -> (r: bool)
    requires
        trigger_ready(*old(battle_data), user_id, MissionTriggerType::Attack, value),
    ensures
        trigger_step(*old(battle_data), *final(battle_data), user_id, MissionTriggerType::Attack, value, mission_parm, r),
{
    match event_player(battle_data, user_id) {
        None => false,
        Some(i) => {
            let c = battle_data.battle_player[i].get_current_cter();
            proof {
                let p = battle_data.battle_player@[i as int];
                let a = choose|a: int| first_cter(p.cters@, p.current_cter.0, a) && *c == #[trigger] p.cters@[a];
                let b = choose|b: int| first_cter(p.cters@, p.current_cter.0, b);
                if a < b {
                    assert(p.cters@[a].base_attr.cter_id != p.current_cter.0);
                } else if b < a {
                    assert(p.cters@[b].base_attr.cter_id != p.current_cter.0);
                }
            }
            let revenge = c.revenge_user_id;
            if revenge == mission_parm.0 {
                progress_one(battle_data, i, MissionCompleteType::AttackLastTurnUser, value, mission_parm)
            } else {
                false
            }
        },
    }
}

/// Whether an event of kind `tt` may count for a mission with condition `cond`.
pub open spec fn trigger_counts(tt: MissionTriggerType, cond: u8) -> bool {
    exists|k: int| 0 <= k < trigger_kinds(tt).len() && #[trigger] trigger_kinds(tt)[k].code() == cond
}

/// The sum of the values of the events of `trig` that may count for a
/// mission with condition `cond`.
pub open spec fn counted_sum(trig: Seq<(MissionTriggerType, u16)>, cond: u8) -> int
    decreases trig.len(),
{
    if trig.len() == 0 {
        0
    } else {
        counted_sum(trig.drop_last(), cond) + if trigger_counts(trig.last().0, cond) { trig.last().1 as int } else { 0 }
    }
}

/// What a player's mission state is: the mission, the completed list, the gold.
pub open spec fn mview(p: BattlePlayer) -> (Option<Mission>, Seq<u32>, i32) {
    (p.mission_data.mission, p.mission_data.complete_list@, p.gold)
}

/// The mission state after an event of kind `tt` worth `value`, where it
/// `applies` (see `trigger_step`), and whether it completed the mission.
pub open spec fn view_step(v: (Option<Mission>, Seq<u32>, i32), tt: MissionTriggerType, value: u16, parm: (u32, u32),
    applies: bool) -> ((Option<Mission>, Seq<u32>, i32), bool) {
    if !applies {
        (v, false)
    } else {
        let st = mission_step(v.0, value, pick_type(trigger_kinds(tt), v.0), parm);
        ((st.0, if st.1 { v.1.push(v.0.unwrap().mission_temp.id) } else { v.1 },
            if st.1 { gold_after(v.2, st.2 as i32) as i32 } else { v.2 }), st.1)
    }
}

/// The mission state after the events `trig`, tried in turn until one
/// completes the mission; an attack applies only on `revenge`.
pub open spec fn view_run(v: (Option<Mission>, Seq<u32>, i32), trig: Seq<(MissionTriggerType, u16)>, parm: (u32, u32),
    revenge: u32) -> ((Option<Mission>, Seq<u32>, i32), bool)
    decreases trig.len(),
{
    if trig.len() == 0 {
        (v, false)
    } else {
        let prev = view_run(v, trig.drop_last(), parm, revenge);
        if prev.1 {
            prev
        } else {
            view_step(prev.0, trig.last().0, trig.last().1, parm,
                trig.last().0 != MissionTriggerType::Attack || revenge == parm.0)
        }
    }
}

/// One event on a player whose mission is open: it either completes the
/// mission, or leaves it open with the same configuration and at most the
/// event's value more progress where it may count; nothing else changes.
proof fn lemma_trigger_effect(bd0: BattleData, bd1: BattleData, user_id: u32, i: int, tt: MissionTriggerType,
    value: u16, parm: (u32, u32), r: bool)
    requires
        first_player(bd0.battle_player@, user_id, i),
        trigger_step(bd0, bd1, user_id, tt, value, parm, r),
        bd0.battle_player@[i].mission_data.mission matches Some(m) && !m.is_complete,
        player_alive(bd0.battle_player@[i]),
    ensures
        ({
            let p0 = bd0.battle_player@[i];
            let vs = view_step(mview(p0), tt, value, parm,
                tt != MissionTriggerType::Attack || current_cter_of(p0).revenge_user_id == parm.0);
            mview(bd1.battle_player@[i]) == vs.0 && r == vs.1
        }),
        bd1 == (BattleData { battle_player: bd1.battle_player, ..bd0 }),
        bd1.battle_player@.len() == bd0.battle_player@.len(),
        forall|j: int| 0 <= j < bd0.battle_player@.len() && j != i ==> #[trigger] bd1.battle_player@[j] == bd0.battle_player@[j],
        ({
            let p0 = bd0.battle_player@[i];
            let p1 = bd1.battle_player@[i];
            let m = p0.mission_data.mission.unwrap();
            &&& p1 == (BattlePlayer { mission_data: p1.mission_data, gold: p1.gold, ..p0 })
            &&& p1.mission_data.history_list@ == p0.mission_data.history_list@
            &&& r ==> (p1.mission_data.mission matches Some(m1) && m1.is_complete)
            &&& !r ==> {
                &&& p1.gold == p0.gold
                &&& p1.mission_data.complete_list@ == p0.mission_data.complete_list@
                &&& (p1.mission_data.mission matches Some(m1) && !m1.is_complete && m1.mission_temp == m.mission_temp
                    && m1.progress <= m.progress + if trigger_counts(tt, m.mission_temp.complete_condition) { value as int } else { 0 })
            }
            &&& r ==> p1.gold == gold_after(p0.gold, m.mission_temp.complete_reward as i32) as i32
                && p1.mission_data.complete_list@ == p0.mission_data.complete_list@.push(m.mission_temp.id)
        }),
{
    let ps = bd0.battle_player@;
    crate::battle::lemma_first_player_unique(ps, user_id, i, choose|q: int| first_player(ps, user_id, q));
    if tt == MissionTriggerType::Attack && has_player(ps, user_id) && player_alive(player_of(ps, user_id))
        && current_cter_of(player_of(ps, user_id)).revenge_user_id != parm.0 {
    } else if !has_player(ps, user_id) || !player_alive(player_of(ps, user_id)) {
    } else {
        let k = choose|k: int| #[trigger] first_player(ps, user_id, k)
            && bd1 == (BattleData { battle_player: bd1.battle_player, ..bd0 })
            && bd1.battle_player@ == ps.update(k, bd1.battle_player@[k])
            && stepped(ps[k], bd1.battle_player@[k], value,
                pick_type(trigger_kinds(tt), ps[k].mission_data.mission), parm, r);
        crate::battle::lemma_first_player_unique(ps, user_id, i, k);
        let m = ps[i].mission_data.mission.unwrap();
        let kinds = trigger_kinds(tt);
        let mt = pick_type(kinds, ps[i].mission_data.mission);
        if mt.code() == m.mission_temp.complete_condition {
            let q = if exists|q: int| 0 <= q < kinds.len() && #[trigger] kinds[q].code() == m.mission_temp.complete_condition {
                choose|q: int| 0 <= q < kinds.len() && #[trigger] kinds[q].code() == m.mission_temp.complete_condition
            } else {
                0
            };
            assert(kinds[q] == mt);
            assert(trigger_counts(tt, m.mission_temp.complete_condition));
        }
    }
}

/// Once an event completed the mission, later events change nothing.
proof fn lemma_view_run_done(v: (Option<Mission>, Seq<u32>, i32), trig: Seq<(MissionTriggerType, u16)>,
    parm: (u32, u32), revenge: u32, n: int)
    requires
        0 <= n <= trig.len(),
        view_run(v, trig.take(n), parm, revenge).1,
    ensures
        view_run(v, trig, parm, revenge) == view_run(v, trig.take(n), parm, revenge),
    decreases trig.len() - n,
{
    if n < trig.len() {
        assert(trig.take(n + 1).drop_last() =~= trig.take(n));
        lemma_view_run_done(v, trig, parm, revenge, n + 1);
    } else {
        assert(trig.take(n) =~= trig);
    }
}

/// Battle `bd1` and answer `r` are what the events `trig` do to player
/// `user_id` of battle `bd0` (see `trigger_mission`).
pub open spec fn mission_triggered(bd0: BattleData, bd1: BattleData, user_id: u32, trig: Seq<(MissionTriggerType, u16)>,
    parm: (u32, u32), r: Option<u32>) -> bool {
    let p = player_of(bd0.battle_player@, user_id);
    match p.mission_data.mission {
        Some(m) => if m.is_complete {
            r is None && bd1 == bd0
        } else {
            let run = if player_alive(p) {
                view_run(mview(p), trig, parm, current_cter_of(p).revenge_user_id)
            } else {
                (mview(p), false)
            };
            &&& r == if run.1 { Some(m.mission_temp.id) } else { None }
            &&& bd1 == (BattleData { battle_player: bd1.battle_player, ..bd0 })
            &&& exists|i: int| #[trigger] first_player(bd0.battle_player@, user_id, i)
                && bd1.battle_player@ == bd0.battle_player@.update(i, bd1.battle_player@[i])
                && bd1.battle_player@[i] == (BattlePlayer {
                    mission_data: bd1.battle_player@[i].mission_data,
                    gold: bd1.battle_player@[i].gold,
                    ..p
                })
                && bd1.battle_player@[i].mission_data.history_list@ == p.mission_data.history_list@
                && mview(bd1.battle_player@[i]) == run.0
        },
        None => r is None && bd1 == bd0,
    }
}

/// What a run of events needs of player `p` (see `triggers_ready`).
pub open spec fn player_triggers_ready(p: BattlePlayer, trig: Seq<(MissionTriggerType, u16)>) -> bool {
    match p.mission_data.mission {
        Some(m) => !m.is_complete ==> {
            &&& valid_condition(m.mission_temp.complete_condition)
            &&& m.progress + counted_sum(trig, m.mission_temp.complete_condition) <= u16::MAX
            &&& p.gold + u16::MAX <= i32::MAX
            &&& (exists|k: int| 0 <= k < trig.len() && #[trigger] trig[k].0 == MissionTriggerType::Attack)
                ==> has_cter(p.cters@, p.current_cter.0)
        },
        None => true,
    }
}

/// What a run of events needs of player `user_id`: an open mission has a
/// known condition and room for every value that may count, a completion's
/// reward fits in the gold, and an attack needs the character acting now.
pub open spec fn triggers_ready(bd: BattleData, user_id: u32, trig: Seq<(MissionTriggerType, u16)>) -> bool {
    player_triggers_ready(player_of(bd.battle_player@, user_id), trig)
}

/// The events `trigger_types` happened to player `user_id`, each with its
/// value: they are tried in turn until one completes the player's open
/// mission (see `view_run`). Returns the id of the mission completed, if
/// one was; nothing happens where the player has no open mission.
pub fn trigger_mission(
    battle_data: &mut BattleData,
    user_id: u32,
    trigger_types: &Vec<(MissionTriggerType, u16)>,
    mission_parm: (u32, u32),
) -> (r: Option<u32>)
    requires
        has_player(old(battle_data).battle_player@, user_id),
        triggers_ready(*old(battle_data), user_id, trigger_types@),
    ensures
        mission_triggered(*old(battle_data), *final(battle_data), user_id, trigger_types@, mission_parm, r),
{
    let ghost bd0 = *battle_data;
    let ghost trig = trigger_types@;
    let pos = match player_position(&battle_data.battle_player, user_id) {
        Some(i) => i,
        None => {
            assert(false);
            return None;
        },
    };
    proof {
        crate::battle::lemma_first_player_unique(bd0.battle_player@, user_id, pos as int,
            choose|q: int| first_player(bd0.battle_player@, user_id, q));
    }
    let m = match battle_data.battle_player[pos].mission_data.mission {
        None => return None,
        Some(m) => m,
    };
    if m.is_complete {
        return None;
    }
    let mission_id = m.mission_temp.id;
    let ghost cond = m.mission_temp.complete_condition;
    let ghost p0 = bd0.battle_player@[pos as int];
    let ghost revenge = current_cter_of(p0).revenge_user_id;
    if battle_data.battle_player[pos].is_died() {
        proof {
            assert(first_player(bd0.battle_player@, user_id, pos as int));
            assert(battle_data.battle_player@ =~= bd0.battle_player@.update(pos as int, bd0.battle_player@[pos as int]));
        }
        return None;
    }
    let mut i: usize = 0;
    while i < trigger_types.len()
        invariant
            trig == trigger_types@,
            i <= trig.len(),
            pos < bd0.battle_player@.len(),
            first_player(bd0.battle_player@, user_id, pos as int),
            p0 == bd0.battle_player@[pos as int],
            p0.mission_data.mission == Some(m),
            !m.is_complete,
            valid_condition(cond),
            cond == m.mission_temp.complete_condition,
            m.progress + counted_sum(trig, cond) <= u16::MAX,
            p0.gold + u16::MAX <= i32::MAX,
            (exists|k: int| 0 <= k < trig.len() && #[trigger] trig[k].0 == MissionTriggerType::Attack)
                ==> has_cter(p0.cters@, p0.current_cter.0),
            player_alive(p0),
            revenge == current_cter_of(p0).revenge_user_id,
            player_of(bd0.battle_player@, user_id) == p0,
            bd0 == *old(battle_data),
            mission_id == m.mission_temp.id,
            !view_run(mview(p0), trig.take(i as int), mission_parm, revenge).1,
            mview(battle_data.battle_player@[pos as int]) == view_run(mview(p0), trig.take(i as int), mission_parm, revenge).0,
            battle_data.battle_player@[pos as int].mission_data.history_list@ == p0.mission_data.history_list@,
            *battle_data == (BattleData { battle_player: battle_data.battle_player, ..bd0 }),
            battle_data.battle_player@.len() == bd0.battle_player@.len(),
            forall|j: int| 0 <= j < bd0.battle_player@.len() && j != pos ==> #[trigger] battle_data.battle_player@[j] == bd0.battle_player@[j],
            ({
                let p1 = battle_data.battle_player@[pos as int];
                &&& p1 == (BattlePlayer { mission_data: p1.mission_data, gold: p1.gold, ..p0 })
                &&& p1.gold == p0.gold
                &&& (p1.mission_data.mission matches Some(m1) && !m1.is_complete && m1.mission_temp == m.mission_temp
                    && m1.progress <= m.progress + counted_sum(trig.take(i as int), cond))
            }),
        decreases trig.len() - i,
    {
        let (tt, value) = trigger_types[i];
        let ghost cur = *battle_data;
        proof {
            assert(trig.take(i + 1).drop_last() =~= trig.take(i as int));
            assert(trig.take(i + 1).last() == trig[i as int]);
            lemma_counted_sum_split(trig, cond, i as int);
            assert forall|j: int| 0 <= j < cur.battle_player@.len() implies #[trigger] cur.battle_player@[j].user_id == bd0.battle_player@[j].user_id by {
                if j != pos {
                } else {
                }
            }
            assert(first_player(cur.battle_player@, user_id, pos as int));
            crate::battle::lemma_first_player_unique(cur.battle_player@, user_id, pos as int,
                choose|q: int| first_player(cur.battle_player@, user_id, q));
            if tt == MissionTriggerType::Attack {
                assert(trig[i as int].0 == MissionTriggerType::Attack);
            }
            let p1 = cur.battle_player@[pos as int];
            let m1 = p1.mission_data.mission.unwrap();
            assert forall|k: int| 0 <= k < trigger_kinds(tt).len() implies step_ready(p1.mission_data.mission, value, #[trigger] trigger_kinds(tt)[k]) by {
                if trigger_kinds(tt)[k].code() == cond {
                    assert(trigger_counts(tt, cond));
                }
            }
        }
        let done = match tt {
            MissionTriggerType::OpenCell => open_cell_trigger_mission(battle_data, user_id, value, mission_parm),
            MissionTriggerType::Pair => pair_cell_trigger_mission(battle_data, user_id, value, mission_parm),
            MissionTriggerType::Attack => attack_trigger_mission(battle_data, user_id, value, mission_parm),
            MissionTriggerType::UseSkill => skill_times_trigger_mission(battle_data, user_id, value, mission_parm),
            MissionTriggerType::GetGold => get_gold_trigger_mission(battle_data, user_id, value, mission_parm),
        };
        proof {
            lemma_trigger_effect(cur, *battle_data, user_id, pos as int, tt, value, mission_parm, done);
            let t = trig.take(i + 1);
            assert(t.drop_last() =~= trig.take(i as int));
            assert(trig[i as int] == (tt, value));
        }
        if done {
            proof {
                let t = trig.take(i + 1);
                let prev = view_run(mview(p0), trig.take(i as int), mission_parm, revenge);
                assert(view_run(mview(p0), t, mission_parm, revenge) == view_step(prev.0, tt, value, mission_parm,
                    tt != MissionTriggerType::Attack || revenge == mission_parm.0));
                assert(current_cter_of(cur.battle_player@[pos as int]) == current_cter_of(p0));
                assert(mview(cur.battle_player@[pos as int]) == prev.0);
                assert(done == view_run(mview(p0), t, mission_parm, revenge).1);
                lemma_view_run_done(mview(p0), trig, mission_parm, revenge, i + 1);
                assert(done == view_run(mview(p0), trig, mission_parm, revenge).1);
                assert(first_player(bd0.battle_player@, user_id, pos as int));
                assert(battle_data.battle_player@ =~= bd0.battle_player@.update(pos as int, battle_data.battle_player@[pos as int]));
            }
            return Some(mission_id);
        }
        i = i + 1;
    }
    proof {
        assert(trig.take(trig.len() as int) =~= trig);
        assert(first_player(bd0.battle_player@, user_id, pos as int));
        assert(battle_data.battle_player@ =~= bd0.battle_player@.update(pos as int, battle_data.battle_player@[pos as int]));
    }
    None
}

/// The counted sum of a prefix and of the rest add up; the next event adds
/// its own value where it may count.
proof fn lemma_counted_sum_split(trig: Seq<(MissionTriggerType, u16)>, cond: u8, i: int)
    requires
        0 <= i < trig.len(),
    ensures
        counted_sum(trig.take(i + 1), cond) == counted_sum(trig.take(i), cond)
            + if trigger_counts(trig[i].0, cond) { trig[i].1 as int } else { 0 },
        counted_sum(trig.take(i + 1), cond) <= counted_sum(trig, cond),
        counted_sum(trig.take(i), cond) >= 0,
    decreases trig.len() - i,
{
    assert(trig.take(i + 1).drop_last() =~= trig.take(i));
    lemma_counted_sum_nonneg(trig.take(i), cond);
    lemma_counted_sum_prefix(trig, cond, i + 1);
}

proof fn lemma_counted_sum_nonneg(trig: Seq<(MissionTriggerType, u16)>, cond: u8)
    ensures
        counted_sum(trig, cond) >= 0,
    decreases trig.len(),
{
    if trig.len() > 0 {
        lemma_counted_sum_nonneg(trig.drop_last(), cond);
    }
}

proof fn lemma_counted_sum_prefix(trig: Seq<(MissionTriggerType, u16)>, cond: u8, n: int)
    requires
        0 <= n <= trig.len(),
    ensures
        counted_sum(trig.take(n), cond) <= counted_sum(trig, cond),
    decreases trig.len() - n,
{
    if n < trig.len() {
        lemma_counted_sum_prefix(trig, cond, n + 1);
        assert(trig.take(n + 1).drop_last() =~= trig.take(n));
    } else {
        assert(trig.take(n) =~= trig);
    }
}

} // verus!
