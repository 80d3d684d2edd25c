use battleserver::battle::BattleData;
use battleserver::battle_buff::{Buff, BuffTemp};
use battleserver::battle_cter::{BaseAttr, BattleBuff, BattleCharacter};
use battleserver::battle_enum::{BattleCterState, BattlePlayerState};
use battleserver::battle_player::{BattlePlayer, BattleStatus, IndexData, MerchandiseData, TurnFlowData};
use battleserver::battle_skill::{Skill, SkillTemp};
use battleserver::map_data::{MapCell, MapCellType};
use battleserver::mgr::League;
use battleserver::mission::MissionData;
use battleserver::room::RoomType;

fn skill_temp(id: u32, function_id: u32, cd: i8) -> SkillTemp {
    SkillTemp {
        id,
        function_id,
        cd,
        consume_type: 0,
        consume_value: 0,
        skill_judge: 0,
        target: 0,
        scope: 0,
        par1: 0,
        par2: 0,
        view_target: 0,
    }
}

fn skill(id: u32, function_id: u32, cd_times: i8) -> Skill {
    Skill { id, function_id, skill_temp: skill_temp(id, function_id, 3), cd_times, is_active: false }
}

fn cter(cter_id: u32, user_id: u32, hp: i16, team_id: u8, index: Option<usize>) -> BattleCharacter {
    let mut base_attr = BaseAttr::new();
    base_attr.cter_id = cter_id;
    base_attr.user_id = user_id;
    base_attr.hp = hp;
    base_attr.team_id = team_id;
    BattleCharacter {
        base_attr,
        battle_buffs: BattleBuff::new(),
        index_data: IndexData { map_cell_index: index, last_map_cell_index: None },
        state: if hp > 0 { BattleCterState::Alive } else { BattleCterState::Died },
        revenge_user_id: 0,
        skills: Vec::new(),
        items: Vec::new(),
        self_transform_cter: None,
        self_cter: None,
        owner: None,
        minons: Vec::new(),
        is_major: true,
    }
}

fn player(user_id: u32, team_id: u8, cters: Vec<BattleCharacter>) -> BattlePlayer {
    let first = cters.first().map(|c| c.base_attr.cter_id).unwrap_or(0);
    BattlePlayer {
        user_id,
        name: format!("p{}", user_id),
        gold: 10,
        grade: 1,
        league: League { score: 0, league_time: 0, league_id: 0 },
        mission_data: MissionData::new(),
        merchandise_data: MerchandiseData::new(),
        cters,
        major_cter: (first, 0),
        current_cter: (first, 0),
        flow_data: TurnFlowData::new(),
        status: BattleStatus::new(),
        robot_data: None,
        team_id,
    }
}

fn cell(index: usize, x: isize, y: isize, user_id: u32) -> MapCell {
    MapCell {
        id: 100 + index as u32,
        index,
        cell_type: MapCellType::Valid,
        buffs: Vec::new(),
        is_world: false,
        element: 0,
        passive_buffs: Vec::new(),
        user_id,
        open_user: 0,
        pair_index: None,
        x,
        y,
    }
}

fn battle(players: Vec<BattlePlayer>, cells: Vec<MapCell>) -> BattleData {
    let mut bd = BattleData::new(RoomType::OneVOneVOneVOneCustom);
    bd.battle_player = players;
    bd.tile_map.map_cells = cells;
    bd
}

fn buff_temp(id: u32, function_id: u32, trigger_times: i8, keep_time: i8) -> BuffTemp {
    BuffTemp { id, function_id, trigger_times, keep_time, par1: 0, par2: 0, scope: 0 }
}

fn buff(id: u32) -> Buff {
    Buff::new(buff_temp(id, id, 1, 0), Vec::new(), None, None, None)
}

fn dead(mut p: BattlePlayer) -> BattlePlayer {
    p.status.battle_state = BattlePlayerState::Died;
    p
}
use battleserver::battle_enum::AttackState;
use battleserver::battle_helper::{Coord2d, Direction2d, SkillJudgeTemp, SkillScopeTemp};
use battleserver::battle_player::RobotData;
use battleserver::robot::{RememberCell, RobotActionType, RobotStatus};
use battleserver::robot_goal::{
    AttackRobotAction, AttackTargetGoalEvaluator, ChoiceIndexGoalEvaluator, ChoiceIndexRobotAction, GoalKind, GoalThink,
    OpenCellGoalEvaluator, SkipRobotAction, UnlockGoalEvaluator, UnlockRobotAction, UseItemGoalEvaluator,
    UseSkillGoalEvaluator, UseSkillRobotAction, BuyGoalEvaluator, SkipGoalEvaluator, can_use_skill,
};
use battleserver::market::{MerchandiseTemp, RobotTemp};
use battleserver::robot_open_cell::{cal_pair_num, check_can_open, unknown_open_candidates, OpenCellRobotAction};

fn ring() -> SkillScopeTemp {
    let offsets = [(-1, 1), (0, 1), (1, 0), (1, -1), (0, -1), (-1, 0)];
    SkillScopeTemp {
        id: 2,
        scope2d: offsets.iter().map(|&(x, y)| Direction2d { direction2d: vec![Coord2d { x, y }] }).collect(),
    }
}

fn rc(cell_index: usize, cell_id: u32) -> RememberCell {
    RememberCell::new(cell_index, cell_id)
}

/// Six cells in a row; cells 0 and 2 are of kind 200, cells 1 and 3 of kind 201.
fn pair_battle(remember: Vec<RememberCell>) -> BattleData {
    let mut cells: Vec<MapCell> = (0..6).map(|i| cell(i, i as isize * 3, 0, 0)).collect();
    let ids = [200u32, 201, 200, 201, 202, 203];
    for (i, c) in cells.iter_mut().enumerate() {
        c.id = ids[i];
    }
    cells[0].element = 1;
    cells[5].user_id = 2;
    let mut robot_cter = cter(11, 1, 20, 1, Some(4));
    robot_cter.base_attr.element = 1;
    let mut robot = player(1, 1, vec![robot_cter]);
    robot.robot_data = Some(RobotData { robot_id: 1, remember_map_cell: remember });
    robot.flow_data.residue_movement_points = 2;
    let other = player(2, 2, vec![cter(21, 2, 30, 2, Some(5))]);
    let mut bd = battle(vec![robot, other], cells);
    bd.tile_map.un_pair_map = vec![(4, 202), (5, 203)];
    bd
}

fn open_action() -> OpenCellRobotAction {
    OpenCellRobotAction { robot_id: 1, cter_id: 11, temp_id: 0, status: RobotStatus::Idle }
}

#[test]
fn check_can_open_locked_and_unmovable() {
    let mut bd = pair_battle(vec![]);
    assert!(check_can_open(1, &bd.tile_map.map_cells[0], &bd));
    assert!(check_can_open(1, &bd.tile_map.map_cells[5], &bd));
    bd.battle_player[1].cters[0].battle_buffs.buffs.push(Buff::new(buff_temp(7, 10002, 1, 0), Vec::new(), None, None, None));
    assert!(!check_can_open(1, &bd.tile_map.map_cells[5], &bd));
    assert!(check_can_open(2, &bd.tile_map.map_cells[5], &bd));
    bd.tile_map.map_cells[0].buffs.push(buff(6));
    assert!(!check_can_open(1, &bd.tile_map.map_cells[0], &bd));
}

#[test]
fn cal_pair_num_lists_pairs_and_element_pairs() {
    let bd = pair_battle(vec![rc(0, 200), rc(2, 200), rc(3, 201)]);
    let (pairs, elements) = cal_pair_num(&bd, &bd.battle_player[0]).unwrap();
    assert_eq!(pairs, vec![0, 2]);
    assert_eq!(elements, vec![0]);
    assert!(cal_pair_num(&bd, &bd.battle_player[1]).is_err());
}

#[test]
fn open_cell_prefers_pairs_then_unknown_cells() {
    let bd = pair_battle(vec![rc(0, 200), rc(2, 200), rc(3, 201)]);
    let (index, kind) = open_action().execute(&bd).unwrap();
    assert!(index == 0 || index == 2);
    assert_eq!(kind, RobotActionType::Open);

    let bd = pair_battle(vec![rc(1, 201), rc(3, 201)]);
    let r = open_action().execute(&bd).unwrap();
    assert!(r == (1, RobotActionType::Open) || r == (3, RobotActionType::Open));

    let bd = pair_battle(vec![rc(1, 201), rc(2, 200)]);
    assert_eq!(open_action().execute(&bd), Some((4, RobotActionType::Open)));

    let mut bd = pair_battle(vec![]);
    bd.tile_map.un_pair_map = vec![(0, 200)];
    bd.tile_map.map_cells[0].buffs.push(buff(6));
    assert_eq!(open_action().execute(&bd), Some((0, RobotActionType::Skip)));

    let mut bd = pair_battle(vec![]);
    bd.battle_player[0].flow_data.residue_movement_points = 0;
    assert_eq!(open_action().execute(&bd), None);
}

#[test]
fn unknown_cells_repeat_per_remembered_cell_before_a_match() {
    let bd = pair_battle(vec![]);
    assert_eq!(unknown_open_candidates(&bd, &vec![rc(5, 203)]), vec![4]);
    assert_eq!(unknown_open_candidates(&bd, &vec![rc(0, 200), rc(5, 203)]), vec![4, 4]);
    assert_eq!(unknown_open_candidates(&bd, &vec![]), vec![4]);
    let mut able = pair_battle(vec![]);
    able.battle_player[1].status.attack_state = AttackState::Able;
    assert_eq!(unknown_open_candidates(&able, &vec![rc(0, 200), rc(5, 203)]), vec![4, 4, 5]);
    assert_eq!(unknown_open_candidates(&able, &vec![]), vec![4, 5]);
}

#[test]
fn can_pair_index_from_memory() {
    let mut bd = pair_battle(vec![]);
    bd.battle_player[0].flow_data.open_map_cell_vec = vec![9, 3];
    let rd = RobotData { robot_id: 1, remember_map_cell: vec![rc(2, 200), rc(1, 201)] };
    assert_eq!(rd.can_pair_index(&bd), Some(1));
    let none = RobotData { robot_id: 1, remember_map_cell: vec![rc(2, 200)] };
    assert_eq!(none.can_pair_index(&bd), None);
    let stranger = RobotData { robot_id: 9, remember_map_cell: vec![rc(1, 201)] };
    assert_eq!(stranger.can_pair_index(&bd), None);
}

#[test]
fn goal_evaluators_weigh_each_goal() {
    let mut bd = pair_battle(vec![rc(1, 201)]);
    let p = &bd.battle_player[0];
    assert_eq!(AttackTargetGoalEvaluator {}.calculate_desirability(p), 0);
    assert_eq!(ChoiceIndexGoalEvaluator {}.calculate_desirability(p), 0);
    assert_eq!(UnlockGoalEvaluator {}.calculate_desirability(p), 0);
    assert_eq!(UseItemGoalEvaluator {}.calculate_desirability(p), 0);
    assert_eq!(OpenCellGoalEvaluator {}.calculate_desirability(p, &bd), 50);
    bd.battle_player[0].flow_data.open_map_cell_vec = vec![3];
    assert_eq!(OpenCellGoalEvaluator {}.calculate_desirability(&bd.battle_player[0], &bd), 70);

    let mut p = bd.battle_player.remove(0);
    p.status.attack_state = AttackState::Able;
    p.status.locked_oper = 5;
    assert_eq!(AttackTargetGoalEvaluator {}.calculate_desirability(&p), 1);
    assert_eq!(UnlockGoalEvaluator {}.calculate_desirability(&p), 200);
    p.cters[0].index_data.map_cell_index = None;
    assert_eq!(ChoiceIndexGoalEvaluator {}.calculate_desirability(&p), 100);
    assert_eq!(UnlockGoalEvaluator {}.calculate_desirability(&p), 0);
}

#[test]
fn arbitrate_takes_the_last_most_wanted_goal() {
    let gt = GoalThink::new();
    assert_eq!(gt.goal_evaluators.len(), 8);
    assert_eq!(gt.arbitrate(&vec![1, 50, 0, 0, 100, 0, 0, 0]), Some(GoalKind::UseSkill));
    assert_eq!(gt.arbitrate(&vec![1, 50, 0, 0, 100, 0, 0, 100]), Some(GoalKind::Unlock));
    assert_eq!(gt.arbitrate(&vec![0, 0, 0, 0, 0, 0, 0, 0]), Some(GoalKind::Unlock));
    assert_eq!(gt.arbitrate(&vec![1, 70, 0, 0, 0, 0, 60, 0]), Some(GoalKind::OpenCell));
    let empty = GoalThink { goal_evaluators: Vec::new() };
    assert_eq!(empty.arbitrate(&Vec::new()), None);
}

#[test]
fn attack_aims_at_the_highest_hp() {
    let cells = vec![cell(0, 0, 0, 1), cell(1, 3, 0, 2), cell(2, 6, 0, 3), cell(3, 9, 0, 0), cell(4, 12, 0, 4)];
    let players = vec![
        player(1, 1, vec![cter(11, 1, 20, 1, Some(0))]),
        player(2, 2, vec![cter(21, 2, 30, 2, Some(1))]),
        player(3, 3, vec![cter(31, 3, 50, 3, Some(2))]),
        player(4, 1, vec![cter(41, 4, 40, 1, Some(4))]),
    ];
    let mut bd = battle(players, cells);
    let action = AttackRobotAction { robot_id: 1, cter_id: 11, temp_id: 0, status: RobotStatus::Idle };
    assert_eq!(action.execute(&bd, &ring()), Some(2));
    bd.battle_player[0].cters[0].battle_buffs.buffs.push(buff(4));
    assert_eq!(action.execute(&bd, &ring()), Some(2));
}

#[test]
fn choice_index_skip_and_unlock_actions() {
    let mut bd = pair_battle(vec![]);
    bd.tile_map.un_pair_map = vec![(5, 203), (4, 202)];
    let choice = ChoiceIndexRobotAction { robot_id: 1, cter_id: 11, temp_id: 0, status: RobotStatus::Idle };
    assert_eq!(choice.execute(&bd), 4);
    let unlock = UnlockRobotAction { robot_id: 1, cter_id: 11, temp_id: 0, status: RobotStatus::Idle };
    assert_eq!(unlock.execute(&bd), 4);
    let skip = SkipRobotAction { robot_id: 1, cter_id: 11, temp_id: 0, status: RobotStatus::Idle };
    assert_eq!(skip.execute(), (0, RobotActionType::Skip));
}

#[test]
fn use_skill_needs_a_usable_skill() {
    let mut bd = pair_battle(vec![]);
    bd.battle_player[0].cters[0].skills.push(skill(41, 431, 0));
    let judges: Vec<SkillJudgeTemp> = Vec::new();
    let action = UseSkillRobotAction { robot_id: 1, cter_id: 11, temp_id: 0, status: RobotStatus::Idle };
    assert!(action.execute(&bd, &judges, &ring()).is_none());
    let p = &bd.battle_player[0];
    assert_eq!(UseSkillGoalEvaluator {}.calculate_desirability(p, &bd, &judges, &ring()), 0);
    let gone = UseSkillRobotAction { robot_id: 9, cter_id: 0, temp_id: 0, status: RobotStatus::Idle };
    assert!(gone.execute(&bd, &judges, &ring()).is_none());
}

fn merch(id: u32, price: i32) -> MerchandiseTemp {
    MerchandiseTemp { id, price, effect_type: 4, effect_value: 1, turn_limit_buy_times: 1 }
}

#[test]
fn buy_goal_weighs_what_can_be_bought() {
    let mut bd = pair_battle(vec![]);
    let temps = vec![merch(1, 5), merch(2, 5), merch(3, 50)];
    let one = vec![RobotTemp { id: 7, merchandises: vec![1, 3] }];
    let two = vec![RobotTemp { id: 7, merchandises: vec![1, 2] }];
    let robot = &bd.battle_player[0];
    let w = BuyGoalEvaluator {}.calculate_desirability(robot, &bd, 3, 7, &one, &temps);
    assert!((40..56).contains(&w));
    assert_eq!(BuyGoalEvaluator {}.calculate_desirability(robot, &bd, 3, 7, &two, &temps), 60);
    assert_eq!(BuyGoalEvaluator {}.calculate_desirability(robot, &bd, 4, 7, &one, &temps), 90);
    assert_eq!(BuyGoalEvaluator {}.calculate_desirability(robot, &bd, 3, 8, &one, &temps), 0);
    // someone who may not be moved stands on the market
    bd.battle_player[1].cters[0].battle_buffs.buffs.push(Buff::new(buff_temp(7, 10002, 1, 0), Vec::new(), None, None, None));
    assert_eq!(BuyGoalEvaluator {}.calculate_desirability(&bd.battle_player[0], &bd, 5, 7, &two, &temps), 0);
    bd.battle_player[0].flow_data.residue_movement_points = 0;
    assert_eq!(BuyGoalEvaluator {}.calculate_desirability(&bd.battle_player[0], &bd, 3, 7, &two, &temps), 0);
}

#[test]
fn skip_goal_when_nothing_is_left() {
    let mut bd = pair_battle(vec![]);
    let temps = vec![merch(1, 5)];
    let rts = vec![RobotTemp { id: 7, merchandises: vec![1] }];
    let judges: Vec<SkillJudgeTemp> = Vec::new();
    assert_eq!(SkipGoalEvaluator {}.calculate_desirability(&bd.battle_player[0], &bd, 3, 7, &rts, &temps, &judges, &ring()), 0);
    bd.battle_player[0].flow_data.residue_movement_points = 0;
    assert!(!can_use_skill(&bd, &bd.battle_player[0], &judges, &ring()));
    assert_eq!(SkipGoalEvaluator {}.calculate_desirability(&bd.battle_player[0], &bd, 3, 7, &rts, &temps, &judges, &ring()), 100);
    // standing on the market with something to buy
    assert_eq!(SkipGoalEvaluator {}.calculate_desirability(&bd.battle_player[0], &bd, 4, 7, &rts, &temps, &judges, &ring()), 0);
    bd.battle_player[0].status.attack_state = AttackState::Able;
    assert_eq!(SkipGoalEvaluator {}.calculate_desirability(&bd.battle_player[0], &bd, 3, 7, &rts, &temps, &judges, &ring()), 0);
}
