//! What a robot wants to do next (how much it wants each goal, and the goal
//! it settles on), and the choices of the actions it then takes.

use vstd::prelude::*;
use crate::battle::{BattleData, has_player, player_alive, player_of, first_player, lemma_first_player_unique, player_position};
use crate::battle_cter::BattleCharacter;
use crate::battle_enum::{AttackState, TargetType};
use crate::battle_helper::{SkillJudgeTemp, SkillScopeTemp, current_cter_of, scope_result, scope_wf, targets_view};
use crate::battle_player::{BattlePlayer, RobotData, first_cter, has_cter};
use crate::battle_skill::Skill;
use crate::buff_type::ADD_ATTACK_AND_AOE;
use crate::map_data::MapCellType;
use crate::robot::{RobotActionType, RobotStatus};
use crate::robot_open_cell::{cter_movable, lemma_current_cter, memory_pair};
use crate::market::{MerchandiseTemp, RobotTemp, buyable, check_buy};
use crate::outside::random_index;
use crate::robot_skill::{
    condition_result, cter_of, found_cell, get_hp_max_cter, hp_max_cters, hp_max_fold, live_cter, pick_one,
    skill_condition, skill_target, target_fits, unsupported_skill,
};

verus! {

/// Whether character `c` carries a buff that makes its attack an area attack.
pub open spec fn has_area_attack(c: BattleCharacter) -> bool {
    exists|i: int| 0 <= i < c.battle_buffs.buffs@.len() && ADD_ATTACK_AND_AOE@.contains(#[trigger] c.battle_buffs.buffs@[i].id)
}

/// Wants to attack (1) where the robot may attack.
pub struct AttackTargetGoalEvaluator {}

/// Wants to open a cell: 70 where it can pair one from memory and has a
/// move left, else 50.
pub struct OpenCellGoalEvaluator {}

/// Wants to choose a cell (100) while its character stands on none.
pub struct ChoiceIndexGoalEvaluator {}

/// Wants to use a skill (100) where one is ready and has targets.
pub struct UseSkillGoalEvaluator {}

/// Wants to go shopping where the robot can buy something (see
/// `calculate_desirability`).
pub struct BuyGoalEvaluator {}

/// Wants to end the turn (100) where the robot can do nothing more.
pub struct SkipGoalEvaluator {}

/// Does not want to use an item.
pub struct UseItemGoalEvaluator {}

/// Wants to free itself (200) where its actions are locked.
pub struct UnlockGoalEvaluator {}

impl AttackTargetGoalEvaluator {
    pub fn calculate_desirability(&self, cter: &BattlePlayer) -> (r: u32)
        ensures
            r == if cter.status.attack_state == AttackState::Able { 1u32 } else { 0u32 },
    {
        if cter.is_can_attack() {
            return 1;
        }
        0
    }
}

impl ChoiceIndexGoalEvaluator {
    pub fn calculate_desirability(&self, battle_player: &BattlePlayer) -> (r: u32)
        requires
            has_cter(battle_player.cters@, battle_player.current_cter.0),
        ensures
            r == if current_cter_of(*battle_player).index_data.map_cell_index is None { 100u32 } else { 0u32 },
    {
        let c = battle_player.get_current_cter();
        proof {
            let i = choose|i: int| first_cter(battle_player.cters@, battle_player.current_cter.0, i) && *c == #[trigger] battle_player.cters@[i];
            lemma_current_cter(*battle_player, i);
        }
        if c.index_data.map_cell_index.is_none() {
            return 100;
        }
        0
    }
}

impl OpenCellGoalEvaluator {
    pub fn calculate_desirability(&self, cter: &BattlePlayer, battle_data: &BattleData) -> (r: u32)
        requires
            cter.robot_data is Some,
        ensures
            r == if memory_pair(*battle_data, cter.robot_data->0) is Some && cter.flow_data.residue_movement_points > 0 {
                70u32
            } else {
                50u32
            },
    {
        let robot_data = match &cter.robot_data {
            Some(d) => d,
            None => return 50,
        };
        let pair_index = robot_data.can_pair_index(battle_data);
        if pair_index.is_some() && cter.flow_data.residue_movement_points > 0 {
            return 70;
        }
        50
    }
}

impl UnlockGoalEvaluator {
    pub fn calculate_desirability(&self, robot: &BattlePlayer) -> (r: u32)
        requires
            has_cter(robot.cters@, robot.current_cter.0),
        ensures
            r == if current_cter_of(*robot).index_data.map_cell_index is Some && robot.status.locked_oper > 0 {
                200u32
            } else {
                0u32
            },
    {
        let c = robot.get_current_cter();
        proof {
            let i = choose|i: int| first_cter(robot.cters@, robot.current_cter.0, i) && *c == #[trigger] robot.cters@[i];
            lemma_current_cter(*robot, i);
        }
        if !c.map_cell_index_is_choiced() {
            return 0;
        }
        if robot.is_locked() {
            return 200;
        }
        0
    }
}

impl UseItemGoalEvaluator {
    pub fn calculate_desirability(&self, battle_player: &BattlePlayer) -> (r: u32)
        requires
            has_cter(battle_player.cters@, battle_player.current_cter.0),
        ensures
            r == 0,
    {
        if battle_player.get_current_cter().items.len() > 0 {
            return 0;
        }
        0
    }
}

/// What `skill_condition` and `skill_target` need to know of the battle
/// for a skill with function id `f` of robot `robot_id`.
pub open spec fn skill_ready(bd: BattleData, robot_id: u32, f: u32) -> bool {
    let cid = player_of(bd.battle_player@, robot_id).current_cter.0;
    &&& (f == 313 || f == 321) ==> (live_cter(bd, cid) && cter_of(bd, cid).get_map_cell_index_spec() <= isize::MAX)
    &&& f == 423 ==> bd.tile_map.un_pair_map@.len() > 0
    &&& f == 12003 ==> live_cter(bd, cid)
    &&& f == 13002 ==> (live_cter(bd, cid) ==> cter_of(bd, cid).get_map_cell_index_spec() < bd.tile_map.map_cells@.len())
}

/// Robot `robot` is a player in the battle acting with a character it has,
/// and the skills of that character can be weighed.
pub open spec fn robot_can_weigh_skills(bd: BattleData, robot: RobotData, near_scope: &SkillScopeTemp) -> bool {
    let p = player_of(bd.battle_player@, robot.robot_id);
    &&& bd.tile_map.wf()
    &&& scope_wf(near_scope)
    &&& has_player(bd.battle_player@, robot.robot_id)
    &&& player_alive(p)
    &&& has_cter(p.cters@, p.current_cter.0)
    &&& forall|k: int| 0 <= k < current_cter_of(p).skills@.len()
        ==> skill_ready(bd, robot.robot_id, (#[trigger] current_cter_of(p).skills@[k]).function_id)
}

/// A robot may use `skill` now and finds targets for it.
pub open spec fn skill_usable_now(bd: BattleData, skill: Skill, robot: RobotData, judge_temps: Seq<SkillJudgeTemp>, near_scope: &SkillScopeTemp) -> bool {
    condition_result(bd, skill, &robot, judge_temps, near_scope) && !unsupported_skill(skill.function_id)
}

/// The targets of `skill` where the robot may use it now (see
/// `skill_condition` and `skill_target`); `None` where it may not.
pub fn robot_use_skill(
    battle_data: &BattleData,
    skill: &Skill,
    robot: &RobotData,
    judge_temps: &Vec<SkillJudgeTemp>,
    near_scope: &SkillScopeTemp,
) -> (r: Option<Vec<usize>>)
    requires
        robot_can_weigh_skills(*battle_data, *robot, near_scope),
        skill_ready(*battle_data, robot.robot_id, skill.function_id),
    ensures
        r is Some <==> skill_usable_now(*battle_data, *skill, *robot, judge_temps@, near_scope),
        r matches Some(t) ==> target_fits(*battle_data, *skill, robot, near_scope, t@),
{
    if !skill_condition(battle_data, skill, robot, judge_temps, near_scope) {
        return None;
    }
    match skill_target(battle_data, skill, robot, near_scope) {
        Ok(t) => Some(t),
        Err(_) => None,
    }
}

/// The positions `k` of the skills in `skills` the robot may use now, in order.
pub open spec fn usable_skills(bd: BattleData, skills: Seq<Skill>, robot: RobotData, judge_temps: Seq<SkillJudgeTemp>, near_scope: &SkillScopeTemp, n: nat) -> Seq<usize>
    decreases n,
{
    if n == 0 {
        Seq::empty()
    } else {
        let prev = usable_skills(bd, skills, robot, judge_temps, near_scope, (n - 1) as nat);
        if skill_usable_now(bd, skills[n - 1], robot, judge_temps, near_scope) {
            prev.push((n - 1) as usize)
        } else {
            prev
        }
    }
}

proof fn lemma_usable_skills(bd: BattleData, skills: Seq<Skill>, robot: RobotData, judge_temps: Seq<SkillJudgeTemp>, near_scope: &SkillScopeTemp, n: nat)
    requires
        n <= skills.len(),
        n <= usize::MAX,
    ensures
        forall|j: int| 0 <= j < usable_skills(bd, skills, robot, judge_temps, near_scope, n).len() ==> {
            let k = #[trigger] usable_skills(bd, skills, robot, judge_temps, near_scope, n)[j];
            k < n && skill_usable_now(bd, skills[k as int], robot, judge_temps, near_scope)
        },
        (usable_skills(bd, skills, robot, judge_temps, near_scope, n).len() == 0)
            == (forall|k: int| 0 <= k < n ==> !skill_usable_now(bd, #[trigger] skills[k], robot, judge_temps, near_scope)),
    decreases n,
{
    if n > 0 {
        lemma_usable_skills(bd, skills, robot, judge_temps, near_scope, (n - 1) as nat);
        let prev = usable_skills(bd, skills, robot, judge_temps, near_scope, (n - 1) as nat);
        let cur = usable_skills(bd, skills, robot, judge_temps, near_scope, n);
        assert forall|j: int| 0 <= j < cur.len() implies
            (#[trigger] cur[j]) < n && skill_usable_now(bd, skills[cur[j] as int], robot, judge_temps, near_scope)
        by {
            if j < prev.len() {
                assert(cur[j] == prev[j]);
                assert(prev[j] < n - 1);
                assert(skill_usable_now(bd, skills[prev[j] as int], robot, judge_temps, near_scope));
            } else {
                assert(skill_usable_now(bd, skills[n - 1], robot, judge_temps, near_scope));
                assert(cur[j] == n - 1);
            }
        }
        if !skill_usable_now(bd, skills[n - 1], robot, judge_temps, near_scope) && prev.len() > 0 {
            let j = prev[0];
            assert(skill_usable_now(bd, skills[j as int], robot, judge_temps, near_scope));
        }
    }
}

/// The positions of the skills of the robot's character it may use now.
fn usable_skill_positions(
    battle_data: &BattleData,
    skills: &Vec<Skill>,
    robot: &RobotData,
    judge_temps: &Vec<SkillJudgeTemp>,
    near_scope: &SkillScopeTemp,
) -> (r: Vec<usize>)
    requires
        robot_can_weigh_skills(*battle_data, *robot, near_scope),
        skills@ == current_cter_of(player_of(battle_data.battle_player@, robot.robot_id)).skills@,
    ensures
        r@ == usable_skills(*battle_data, skills@, *robot, judge_temps@, near_scope, skills@.len()),
{
    let mut v: Vec<usize> = Vec::new();
    let mut k: usize = 0;
    while k < skills.len()
        invariant
            k <= skills@.len(),
            robot_can_weigh_skills(*battle_data, *robot, near_scope),
            skills@ == current_cter_of(player_of(battle_data.battle_player@, robot.robot_id)).skills@,
            v@ == usable_skills(*battle_data, skills@, *robot, judge_temps@, near_scope, k as nat),
        decreases skills@.len() - k,
    {
        let res = robot_use_skill(battle_data, &skills[k], robot, judge_temps, near_scope);
        if res.is_some() {
            v.push(k);
        }
        k = k + 1;
    }
    v
}

impl UseSkillGoalEvaluator {
    pub fn calculate_desirability(
        &self,
        battle_player: &BattlePlayer,
        battle_data: &BattleData,
        judge_temps: &Vec<SkillJudgeTemp>,
        near_scope: &SkillScopeTemp,
    ) -> (r: u32)
        requires
            has_cter(battle_player.cters@, battle_player.current_cter.0),
            battle_player.robot_data matches Some(d) && robot_can_weigh_skills(*battle_data, d, near_scope)
                && player_of(battle_data.battle_player@, d.robot_id) == *battle_player,
        ensures
            r == if current_cter_of(*battle_player).index_data.map_cell_index is None {
                0u32
            } else if exists|k: int| 0 <= k < current_cter_of(*battle_player).skills@.len()
                && skill_usable_now(*battle_data, #[trigger] current_cter_of(*battle_player).skills@[k],
                    battle_player.robot_data->0, judge_temps@, near_scope) {
                100u32
            } else {
                0u32
            },
    {
        let c = battle_player.get_current_cter();
        proof {
            let i = choose|i: int| first_cter(battle_player.cters@, battle_player.current_cter.0, i) && *c == #[trigger] battle_player.cters@[i];
            lemma_current_cter(*battle_player, i);
        }
        if !c.map_cell_index_is_choiced() {
            return 0;
        }
        let robot = match &battle_player.robot_data {
            Some(d) => d,
            None => return 0,
        };
        let v = usable_skill_positions(battle_data, &c.skills, robot, judge_temps, near_scope);
        proof {
            assert(c.skills@.len() == c.skills.len());
            lemma_usable_skills(*battle_data, c.skills@, *robot, judge_temps@, near_scope, c.skills@.len());
        }
        if v.len() > 0 {
            proof {
                let k = v@[0];
                assert(skill_usable_now(*battle_data, c.skills@[k as int], *robot, judge_temps@, near_scope));
            }
            return 100;
        }
        0
    }
}

/// The goals a robot weighs.
#[derive(Debug, Clone, Copy, PartialEq, Eq, Structural)]
pub enum GoalKind {
    Attack,
    OpenCell,
    ChoiceIndex,
    Skip,
    UseSkill,
    UseItem,
    Buy,
    Unlock,
}

/// The goals of a robot, in the order they are weighed.
pub struct GoalThink {
    pub goal_evaluators: Vec<GoalKind>,
}

/// `i` is the last position holding the highest of `scores`.
pub open spec fn last_best(scores: Seq<u32>, i: int) -> bool {
    &&& 0 <= i < scores.len()
    &&& forall|j: int| 0 <= j < scores.len() ==> #[trigger] scores[j] <= scores[i]
    &&& forall|j: int| i < j < scores.len() ==> #[trigger] scores[j] < scores[i]
}

impl GoalThink {
    pub fn new() -> (r: GoalThink)
        ensures
            r.goal_evaluators@ == seq![GoalKind::Attack, GoalKind::OpenCell, GoalKind::ChoiceIndex, GoalKind::Skip,
                GoalKind::UseSkill, GoalKind::UseItem, GoalKind::Buy, GoalKind::Unlock],
    {
        let mut gt = GoalThink { goal_evaluators: Vec::new() };
        gt.goal_evaluators.push(GoalKind::Attack);
        gt.goal_evaluators.push(GoalKind::OpenCell);
        gt.goal_evaluators.push(GoalKind::ChoiceIndex);
        gt.goal_evaluators.push(GoalKind::Skip);
        gt.goal_evaluators.push(GoalKind::UseSkill);
        gt.goal_evaluators.push(GoalKind::UseItem);
        gt.goal_evaluators.push(GoalKind::Buy);
        gt.goal_evaluators.push(GoalKind::Unlock);
        gt
    }

    /// The goal the robot settles on, given how much it wants each goal
    /// (`scores`, in the order of the goals): the one it wants most, the
    /// last of them where several tie; `None` where it has no goal.
    pub fn arbitrate(&self, scores: &Vec<u32>) -> (r: Option<GoalKind>)
        requires
            scores@.len() == self.goal_evaluators@.len(),
        ensures
            self.goal_evaluators@.len() == 0 <==> r is None,
            r matches Some(g) ==> exists|i: int| #[trigger] last_best(scores@, i) && g == self.goal_evaluators@[i],
    {
        if self.goal_evaluators.len() == 0 {
            return None;
        }
        let mut best: usize = 0;
        let mut i: usize = 1;
        while i < scores.len()
            invariant
                1 <= i <= scores@.len(),
                best < i,
                forall|j: int| 0 <= j < i ==> #[trigger] scores@[j] <= scores@[best as int],
                forall|j: int| best < j < i ==> #[trigger] scores@[j] < scores@[best as int],
            decreases scores@.len() - i,
        {
            if scores[i] >= scores[best] {
                best = i;
            }
            i = i + 1;
        }
        assert(last_best(scores@, best as int));
        Some(self.goal_evaluators[best])
    }
}

/// A robot may settle on the goal it wants least only where it wants all
/// goals alike: the goal chosen is wanted at least as much as any other.
pub proof fn law_arbitrate_picks_most_wanted(scores: Seq<u32>, i: int, j: int)
    requires
        last_best(scores, i),
        0 <= j < scores.len(),
    ensures
        scores[j] <= scores[i],
        j > i ==> scores[j] < scores[i],
{
}

/// A robot about to attack.
pub struct AttackRobotAction {
    pub robot_id: u32,
    pub cter_id: u32,
    pub temp_id: u32,
    pub status: RobotStatus,
}

/// The search of the attack for the cell round which most players stand:
/// for each player but the robot among `ps`, the cell of its character
/// and how many players the ring round it holds; the first cell with the
/// most wins.
pub open spec fn crowd_scan(bd: BattleData, robot_id: u32, near_scope: &SkillScopeTemp, ps: Seq<BattlePlayer>) -> (usize, nat)
    decreases ps.len(),
{
    if ps.len() == 0 {
        (0, 0)
    } else {
        let prev = crowd_scan(bd, robot_id, near_scope, ps.drop_last());
        let p = ps.last();
        if p.user_id == robot_id {
            prev
        } else {
            let idx = current_cter_of(p).get_map_cell_index_spec();
            let cnt = scope_result(bd, robot_id, idx as isize, TargetType::SelfScopeOthers, None, near_scope).1.len();
            if cnt > prev.1 { (idx, cnt) } else { prev }
        }
    }
}

/// The cell the attack of robot `robot_id` aims at: where its character
/// attacks an area and some ring round a player's cell holds more than one
/// player, the first such cell with the most; else the cell of the character
/// with the highest hp (see `get_hp_max_cter`).
pub open spec fn attack_aim(bd: BattleData, robot_id: u32, near_scope: &SkillScopeTemp) -> Option<usize> {
    let hp_max = found_cell(hp_max_fold(hp_max_cters(bd.battle_player@, robot_id, None)));
    if has_area_attack(current_cter_of(player_of(bd.battle_player@, robot_id))) {
        let best = crowd_scan(bd, robot_id, near_scope, bd.battle_player@);
        if best.1 > 1 { Some(best.0) } else { hp_max }
    } else {
        hp_max
    }
}

/// Every other player acts with a character it has, standing on a cell
/// number that fits an `isize`.
pub open spec fn others_placed(bd: BattleData, robot_id: u32) -> bool {
    forall|i: int| 0 <= i < bd.battle_player@.len() && (#[trigger] bd.battle_player@[i]).user_id != robot_id ==> {
        let p = bd.battle_player@[i];
        has_cter(p.cters@, p.current_cter.0) && current_cter_of(p).get_map_cell_index_spec() <= isize::MAX
    }
}

impl AttackRobotAction {
    /// The cell the robot attacks (see `attack_aim`); `None` where it
    /// finds no target. `near_scope` is the ring round a cell.
    pub fn execute(&self, battle_data: &BattleData, near_scope: &SkillScopeTemp) -> (r: Option<usize>)
        requires
            battle_data.tile_map.wf(),
            scope_wf(near_scope),
            has_player(battle_data.battle_player@, self.robot_id),
            has_cter(player_of(battle_data.battle_player@, self.robot_id).cters@,
                player_of(battle_data.battle_player@, self.robot_id).current_cter.0),
            has_area_attack(current_cter_of(player_of(battle_data.battle_player@, self.robot_id)))
                ==> others_placed(*battle_data, self.robot_id),
        ensures
            r == attack_aim(*battle_data, self.robot_id, near_scope),
    {
        let robot_id = self.robot_id;
        let pos = player_position(&battle_data.battle_player, robot_id).unwrap();
        proof {
            lemma_first_player_unique(battle_data.battle_player@, robot_id, pos as int,
                choose|q: int| first_player(battle_data.battle_player@, robot_id, q));
        }
        let robot = &battle_data.battle_player[pos];
        let c = robot.get_current_cter();
        proof {
            let i = choose|i: int| first_cter(robot.cters@, robot.current_cter.0, i) && *c == #[trigger] robot.cters@[i];
            lemma_current_cter(*robot, i);
        }
        if c.is_has_add_attack_and_aoe() {
            let ghost ps = battle_data.battle_player@;
            let mut best_index: usize = 0;
            let mut best_count: usize = 0;
            let mut k: usize = 0;
            while k < battle_data.battle_player.len()
                invariant
                    ps == battle_data.battle_player@,
                    k <= ps.len(),
                    others_placed(*battle_data, robot_id),
                    battle_data.tile_map.wf(),
                    scope_wf(near_scope),
                    (best_index, best_count as nat) == crowd_scan(*battle_data, robot_id, near_scope, ps.take(k as int)),
                decreases ps.len() - k,
            {
                let player = &battle_data.battle_player[k];
                proof {
                    assert(ps.take(k + 1).drop_last() =~= ps.take(k as int));
                }
                if player.get_user_id() != robot_id {
                    let pc = player.get_current_cter();
                    proof {
                        let i = choose|i: int| first_cter(player.cters@, player.current_cter.0, i) && *pc == #[trigger] player.cters@[i];
                        lemma_current_cter(*player, i);
                    }
                    let player_index = pc.get_map_cell_index();
                    let (_, count_v) = battle_data.cal_scope(
                        robot_id,
                        player_index as isize,
                        TargetType::SelfScopeOthers,
                        None,
                        Some(near_scope),
                        near_scope,
                    );
                    if count_v.len() > best_count {
                        best_index = player_index;
                        best_count = count_v.len();
                    }
                }
                k = k + 1;
            }
            proof {
                assert(ps.take(ps.len() as int) =~= ps);
            }
            if best_count > 1 {
                return Some(best_index);
            }
        }
        get_hp_max_cter(battle_data, robot_id, None)
    }
}

/// A robot about to choose the cell it starts on.
pub struct ChoiceIndexRobotAction {
    pub robot_id: u32,
    pub cter_id: u32,
    pub temp_id: u32,
    pub status: RobotStatus,
}

/// The unpaired cells, among the first `n`, a robot may start on: nobody
/// stands there, it is not the world cell, and its id is a real cell's.
pub open spec fn start_cells(bd: BattleData, n: nat) -> Seq<usize>
    decreases n,
{
    if n == 0 {
        Seq::empty()
    } else {
        let prev = start_cells(bd, (n - 1) as nat);
        let idx = bd.tile_map.un_pair_map@[n - 1].0;
        let c = bd.tile_map.map_cells@[idx as int];
        if c.user_id > 0 || c.is_world || c.id <= MapCellType::UnUse.code() {
            prev
        } else {
            prev.push(idx)
        }
    }
}

/// Every unpaired cell is on the map.
pub open spec fn unpaired_on_map(bd: BattleData) -> bool {
    forall|k: int| 0 <= k < bd.tile_map.un_pair_map@.len() ==> (#[trigger] bd.tile_map.un_pair_map@[k]).0 < bd.tile_map.map_cells@.len()
}

impl ChoiceIndexRobotAction {
    /// A cell drawn at random among those the robot may start on (see `start_cells`).
    pub fn execute(&self, battle_data: &BattleData) -> (r: usize)
        requires
            unpaired_on_map(*battle_data),
            start_cells(*battle_data, battle_data.tile_map.un_pair_map@.len()).len() > 0,
        ensures
            start_cells(*battle_data, battle_data.tile_map.un_pair_map@.len()).contains(r),
    {
        let un = &battle_data.tile_map.un_pair_map;
        let mut v: Vec<usize> = Vec::new();
        let mut k: usize = 0;
        while k < un.len()
            invariant
                k <= un@.len(),
                un@ == battle_data.tile_map.un_pair_map@,
                unpaired_on_map(*battle_data),
                v@ == start_cells(*battle_data, k as nat),
            decreases un@.len() - k,
        {
            let index = un[k].0;
            let map_cell = &battle_data.tile_map.map_cells[index];
            if !(map_cell.user_id > 0 || map_cell.is_world() || map_cell.id <= MapCellType::UnUse.into_u32()) {
                v.push(index);
            }
            k = k + 1;
        }
        pick_one(&v)
    }
}

/// A robot about to free itself.
pub struct UnlockRobotAction {
    pub robot_id: u32,
    pub cter_id: u32,
    pub temp_id: u32,
    pub status: RobotStatus,
}

impl UnlockRobotAction {
    /// The cell the robot acts on to free itself: that of its character.
    pub fn execute(&self, battle_data: &BattleData) -> (r: usize)
        requires
            has_player(battle_data.battle_player@, self.robot_id),
            has_cter(player_of(battle_data.battle_player@, self.robot_id).cters@,
                player_of(battle_data.battle_player@, self.robot_id).current_cter.0),
        ensures
            r == current_cter_of(player_of(battle_data.battle_player@, self.robot_id)).get_map_cell_index_spec(),
    {
        let pos = player_position(&battle_data.battle_player, self.robot_id).unwrap();
        proof {
            lemma_first_player_unique(battle_data.battle_player@, self.robot_id, pos as int,
                choose|q: int| first_player(battle_data.battle_player@, self.robot_id, q));
        }
        let p = &battle_data.battle_player[pos];
        let c = p.get_current_cter();
        proof {
            let i = choose|i: int| first_cter(p.cters@, p.current_cter.0, i) && *c == #[trigger] p.cters@[i];
            lemma_current_cter(*p, i);
        }
        c.get_map_cell_index()
    }
}

/// A robot about to end its turn.
pub struct SkipRobotAction {
    pub robot_id: u32,
    pub cter_id: u32,
    pub temp_id: u32,
    pub status: RobotStatus,
}

impl SkipRobotAction {
    /// The action the robot sends: skip, on no cell.
    pub fn execute(&self) -> (r: (usize, RobotActionType))
        ensures
            r == (0usize, RobotActionType::Skip),
    {
        (0, RobotActionType::Skip)
    }
}

/// A robot about to use a skill.
pub struct UseSkillRobotAction {
    pub robot_id: u32,
    pub cter_id: u32,
    pub temp_id: u32,
    pub status: RobotStatus,
}

impl UseSkillRobotAction {
    /// The skill the robot uses and its targets: one drawn at random among
    /// the skills of its character it may use now; `None` where the robot
    /// is not in the battle or may use none.
    pub fn execute(
        &self,
        battle_data: &BattleData,
        judge_temps: &Vec<SkillJudgeTemp>,
        near_scope: &SkillScopeTemp,
    ) -> (r: Option<(u32, Vec<usize>)>)
        requires
            has_player(battle_data.battle_player@, self.robot_id)
                && player_alive(player_of(battle_data.battle_player@, self.robot_id))
                ==> (player_of(battle_data.battle_player@, self.robot_id).robot_data matches Some(d)
                    && d.robot_id == self.robot_id && robot_can_weigh_skills(*battle_data, d, near_scope)),
        ensures
            ({
                let p = player_of(battle_data.battle_player@, self.robot_id);
                if !has_player(battle_data.battle_player@, self.robot_id) || !player_alive(p) {
                    r is None
                } else {
                    let skills = current_cter_of(p).skills@;
                    let d = p.robot_data->0;
                    &&& r is None <==> forall|k: int| 0 <= k < skills.len()
                        ==> !skill_usable_now(*battle_data, #[trigger] skills[k], d, judge_temps@, near_scope)
                    &&& r matches Some((id, t)) ==> exists|k: int| 0 <= k < skills.len()
                        && (#[trigger] skills[k]).id == id
                        && skill_usable_now(*battle_data, skills[k], d, judge_temps@, near_scope)
                        && target_fits(*battle_data, skills[k], &d, near_scope, t@)
                }
            }),
    {
        let pos = match player_position(&battle_data.battle_player, self.robot_id) {
            Some(p) => p,
            None => return None,
        };
        proof {
            lemma_first_player_unique(battle_data.battle_player@, self.robot_id, pos as int,
                choose|q: int| first_player(battle_data.battle_player@, self.robot_id, q));
        }
        let battle_player = &battle_data.battle_player[pos];
        if battle_player.is_died() {
            return None;
        }
        let robot = match &battle_player.robot_data {
            Some(d) => d,
            None => return None,
        };
        let c = battle_player.get_current_cter();
        proof {
            let i = choose|i: int| first_cter(battle_player.cters@, battle_player.current_cter.0, i) && *c == #[trigger] battle_player.cters@[i];
            lemma_current_cter(*battle_player, i);
        }
        let v = usable_skill_positions(battle_data, &c.skills, robot, judge_temps, near_scope);
        proof {
            assert(c.skills@.len() == c.skills.len());
            lemma_usable_skills(*battle_data, c.skills@, *robot, judge_temps@, near_scope, c.skills@.len());
        }
        if v.len() == 0 {
            return None;
        }
        let k = pick_one(&v);
        proof {
            let j = choose|j: int| 0 <= j < v@.len() && v@[j] == k;
            assert(v@[j] == k);
        }
        let skill = &c.skills[k];
        match robot_use_skill(battle_data, skill, robot, judge_temps, near_scope) {
            Some(t) => Some((skill.id, t)),
            None => None,
        }
    }
}

/// Robot `battle_player` is in the battle `bd` as a robot, acts with a
/// character it has, and the skills of that character can be weighed.
pub open spec fn robot_weighable(bd: BattleData, battle_player: BattlePlayer, near_scope: &SkillScopeTemp) -> bool {
    &&& has_cter(battle_player.cters@, battle_player.current_cter.0)
    &&& battle_player.robot_data matches Some(d) && robot_can_weigh_skills(bd, d, near_scope)
        && player_of(bd.battle_player@, d.robot_id) == battle_player
}

/// Whether the robot may use some skill of its character now.
pub open spec fn some_skill_usable(bd: BattleData, battle_player: BattlePlayer, judge_temps: Seq<SkillJudgeTemp>, near_scope: &SkillScopeTemp) -> bool {
    exists|k: int| 0 <= k < current_cter_of(battle_player).skills@.len()
        && skill_usable_now(bd, #[trigger] current_cter_of(battle_player).skills@[k], battle_player.robot_data->0, judge_temps, near_scope)
}

/// Whether the robot may use some skill of its character now (see
/// `skill_usable_now`).
pub fn can_use_skill(
    battle_data: &BattleData,
    battle_player: &BattlePlayer,
    judge_temps: &Vec<SkillJudgeTemp>,
    near_scope: &SkillScopeTemp,
) -> (r: bool)
    requires
        robot_weighable(*battle_data, *battle_player, near_scope),
    ensures
        r == some_skill_usable(*battle_data, *battle_player, judge_temps@, near_scope),
{
    let c = battle_player.get_current_cter();
    proof {
        let i = choose|i: int| first_cter(battle_player.cters@, battle_player.current_cter.0, i) && *c == #[trigger] battle_player.cters@[i];
        lemma_current_cter(*battle_player, i);
    }
    let robot = match &battle_player.robot_data {
        Some(d) => d,
        None => return false,
    };
    let v = usable_skill_positions(battle_data, &c.skills, robot, judge_temps, near_scope);
    proof {
        assert(c.skills@.len() == c.skills.len());
        lemma_usable_skills(*battle_data, c.skills@, *robot, judge_temps@, near_scope, c.skills@.len());
    }
    if v.len() > 0 {
        proof {
            let k = v@[0];
            assert(skill_usable_now(*battle_data, c.skills@[k as int], *robot, judge_temps@, near_scope));
        }
        return true;
    }
    false
}

/// `i` is the position of the first robot configuration with id `id`.
pub open spec fn first_robot_temp(rts: Seq<RobotTemp>, id: u32, i: int) -> bool {
    &&& 0 <= i < rts.len()
    &&& rts[i].id == id
    &&& forall|j: int| 0 <= j < i ==> #[trigger] rts[j].id != id
}

/// What robot `p` of configuration `id` may buy now: the merchandise of
/// its configuration it may buy (see `check_buy`), none where there is no
/// such configuration.
pub open spec fn buy_list(p: BattlePlayer, id: u32, rts: Seq<RobotTemp>, temps: Seq<MerchandiseTemp>) -> Seq<u32> {
    if exists|i: int| #[trigger] first_robot_temp(rts, id, i) {
        rts[choose|i: int| #[trigger] first_robot_temp(rts, id, i)].merchandises@.filter(buyable(p, temps))
    } else {
        Seq::empty()
    }
}

proof fn lemma_first_robot_temp(rts: Seq<RobotTemp>, id: u32, n: int)
    requires
        0 <= n <= rts.len(),
        exists|i: int| 0 <= i < n && #[trigger] rts[i].id == id,
    ensures
        exists|i: int| #[trigger] first_robot_temp(rts, id, i),
    decreases n,
{
    if exists|i: int| 0 <= i < n - 1 && #[trigger] rts[i].id == id {
        lemma_first_robot_temp(rts, id, n - 1);
    } else {
        assert(first_robot_temp(rts, id, n - 1));
    }
}

/// What the robot may buy now (see `buy_list`).
fn robot_buy_list(battle_player: &BattlePlayer, robot_temp_id: u32, robot_temps: &Vec<RobotTemp>, temps: &Vec<MerchandiseTemp>) -> (r: Vec<u32>)
    ensures
        r@ == buy_list(*battle_player, robot_temp_id, robot_temps@, temps@),
{
    let r = check_buy(battle_player, robot_temp_id, robot_temps, temps);
    proof {
        if exists|i: int| #[trigger] first_robot_temp(robot_temps@, robot_temp_id, i) {
            let i = choose|i: int| #[trigger] first_robot_temp(robot_temps@, robot_temp_id, i);
            assert(robot_temps@[i].id == robot_temp_id);
        } else {
            if exists|i: int| 0 <= i < robot_temps@.len() && #[trigger] robot_temps@[i].id == robot_temp_id {
                lemma_first_robot_temp(robot_temps@, robot_temp_id, robot_temps@.len() as int);
            }
        }
    }
    r
}

/// Whether the robot stands on the market cell at `market_cell_index`.
pub open spec fn at_market(robot: BattlePlayer, market_cell_index: usize) -> bool {
    market_cell_index == current_cter_of(robot).get_map_cell_index_spec()
}

impl BuyGoalEvaluator {
    /// How much robot `robot` (of configuration `robot_temp_id`) wants to
    /// buy, with the market on cell `market_cell_index`: nothing before it
    /// stands on the map, or where someone who may not be moved stands on
    /// the market; with one thing to buy, away from the market and a move
    /// left, a random amount from 40 to 55; with more, 60; at the market
    /// with something to buy, 90; else nothing.
    pub fn calculate_desirability(
        &self,
        robot: &BattlePlayer,
        battle_data: &BattleData,
        market_cell_index: usize,
        robot_temp_id: u32,
        robot_temps: &Vec<RobotTemp>,
        temps: &Vec<MerchandiseTemp>,
    ) -> (r: u32)
        requires
            has_cter(robot.cters@, robot.current_cter.0),
            current_cter_of(*robot).index_data.map_cell_index is Some ==> {
                let m = battle_data.tile_map.map_cells@[market_cell_index as int];
                &&& market_cell_index < battle_data.tile_map.map_cells@.len()
                &&& m.user_id != robot.user_id && has_player(battle_data.battle_player@, m.user_id)
                    ==> has_cter(player_of(battle_data.battle_player@, m.user_id).cters@,
                        player_of(battle_data.battle_player@, m.user_id).current_cter.0)
            },
        ensures
            ({
                let c = current_cter_of(*robot);
                let ps = battle_data.battle_player@;
                let m = battle_data.tile_map.map_cells@[market_cell_index as int];
                let n = buy_list(*robot, robot_temp_id, robot_temps@, temps@).len();
                let at = at_market(*robot, market_cell_index);
                let moves = robot.flow_data.residue_movement_points > 0;
                if c.index_data.map_cell_index is None {
                    r == 0
                } else if m.user_id != robot.user_id && has_player(ps, m.user_id)
                    && !cter_movable(current_cter_of(player_of(ps, m.user_id))) {
                    r == 0
                } else if n == 1 && !at && moves {
                    40 <= r < 56
                } else if n > 1 && !at && moves {
                    r == 60
                } else if n > 0 && at {
                    r == 90
                } else {
                    r == 0
                }
            }),
    {
        let c = robot.get_current_cter();
        proof {
            let i = choose|i: int| first_cter(robot.cters@, robot.current_cter.0, i) && *c == #[trigger] robot.cters@[i];
            lemma_current_cter(*robot, i);
        }
        if !c.map_cell_index_is_choiced() {
            return 0;
        }
        let robot_index = c.get_map_cell_index();
        let is_at_market = market_cell_index == robot_index;
        let market = &battle_data.tile_map.map_cells[market_cell_index];
        if market.user_id != robot.user_id {
            match battle_data.get_battle_player(Some(market.user_id), false) {
                Ok(player) => {
                    let pc = player.get_current_cter();
                    proof {
                        let i = choose|i: int| first_cter(player.cters@, player.current_cter.0, i) && *pc == #[trigger] player.cters@[i];
                        lemma_current_cter(*player, i);
                    }
                    if !pc.can_be_move() {
                        return 0;
                    }
                },
                Err(_) => {},
            }
        }
        let res = robot_buy_list(robot, robot_temp_id, robot_temps, temps);
        let moves = robot.flow_data.residue_movement_points > 0;
        if res.len() == 1 && !is_at_market && moves {
            40 + random_index(16) as u32
        } else if res.len() > 1 && !is_at_market && moves {
            60
        } else if res.len() > 0 && is_at_market {
            90
        } else {
            0
        }
    }
}

impl SkipGoalEvaluator {
    /// How much robot `robot` (of configuration `robot_temp_id`, with the
    /// market on cell `market_cell_index`) wants to end its turn: 100 where
    /// it stands on the map with no move left, may not attack, may use no
    /// skill, and cannot buy at the market; else nothing.
    pub fn calculate_desirability(
        &self,
        robot: &BattlePlayer,
        battle_data: &BattleData,
        market_cell_index: usize,
        robot_temp_id: u32,
        robot_temps: &Vec<RobotTemp>,
        temps: &Vec<MerchandiseTemp>,
        judge_temps: &Vec<SkillJudgeTemp>,
        near_scope: &SkillScopeTemp,
    ) -> (r: u32)
        requires
            robot_weighable(*battle_data, *robot, near_scope),
        ensures
            r == if current_cter_of(*robot).index_data.map_cell_index is None {
                0u32
            } else if robot.flow_data.residue_movement_points == 0
                && robot.status.attack_state != AttackState::Able
                && !some_skill_usable(*battle_data, *robot, judge_temps@, near_scope)
                && !(buy_list(*robot, robot_temp_id, robot_temps@, temps@).len() > 0 && at_market(*robot, market_cell_index)) {
                100u32
            } else {
                0u32
            },
    {
        let c = robot.get_current_cter();
        proof {
            let i = choose|i: int| first_cter(robot.cters@, robot.current_cter.0, i) && *c == #[trigger] robot.cters@[i];
            lemma_current_cter(*robot, i);
        }
        if !c.map_cell_index_is_choiced() {
            return 0;
        }
        let robot_index = c.get_map_cell_index();
        let is_at_market = market_cell_index == robot_index;
        let res = robot_buy_list(robot, robot_temp_id, robot_temps, temps);
        let can_buy = res.len() > 0 && is_at_market;
        let no_move_points = robot.flow_data.residue_movement_points == 0;
        let is_can_attack = robot.is_can_attack();
        let can_skill = can_use_skill(battle_data, robot, judge_temps, near_scope);
        if no_move_points && !is_can_attack && !can_skill && !can_buy {
            return 100;
        }
        0
    }
}

} // verus!
