use battleserver::battle::BattleData;
use battleserver::battle_buff::{Buff, BuffTemp};
use battleserver::battle_cter::{BaseAttr, BattleBuff, BattleCharacter};
use battleserver::battle_enum::{BattleCterState, BattlePlayerState};
use battleserver::battle_player::{BattlePlayer, BattleStatus, IndexData, MerchandiseData, TurnFlowData};
use battleserver::battle_skill::{Skill, SkillTemp};
use battleserver::map_data::{MapCell, MapCellType};
use battleserver::mgr::League;
use battleserver::mission::MissionData;
use battleserver::room::RoomType;

fn skill_temp(id: u32, function_id: u32, cd: i8) -> SkillTemp {
    SkillTemp {
        id,
        function_id,
        cd,
        consume_type: 0,
        consume_value: 0,
        skill_judge: 0,
        target: 0,
        scope: 0,
        par1: 0,
        par2: 0,
        view_target: 0,
    }
}

fn skill(id: u32, function_id: u32, cd_times: i8) -> Skill {
    Skill { id, function_id, skill_temp: skill_temp(id, function_id, 3), cd_times, is_active: false }
}

fn cter(cter_id: u32, user_id: u32, hp: i16, team_id: u8, index: Option<usize>) -> BattleCharacter {
    let mut base_attr = BaseAttr::new();
    base_attr.cter_id = cter_id;
    base_attr.user_id = user_id;
    base_attr.hp = hp;
    base_attr.team_id = team_id;
    BattleCharacter {
        base_attr,
        battle_buffs: BattleBuff::new(),
        index_data: IndexData { map_cell_index: index, last_map_cell_index: None },
        state: if hp > 0 { BattleCterState::Alive } else { BattleCterState::Died },
        revenge_user_id: 0,
        skills: Vec::new(),
        items: Vec::new(),
        self_transform_cter: None,
        self_cter: None,
        owner: None,
        minons: Vec::new(),
        is_major: true,
    }
}

fn player(user_id: u32, team_id: u8, cters: Vec<BattleCharacter>) -> BattlePlayer {
    let first = cters.first().map(|c| c.base_attr.cter_id).unwrap_or(0);
    BattlePlayer {
        user_id,
        name: format!("p{}", user_id),
        gold: 10,
        grade: 1,
        league: League { score: 0, league_time: 0, league_id: 0 },
        mission_data: MissionData::new(),
        merchandise_data: MerchandiseData::new(),
        cters,
        major_cter: (first, 0),
        current_cter: (first, 0),
        flow_data: TurnFlowData::new(),
        status: BattleStatus::new(),
        robot_data: None,
        team_id,
    }
}

fn cell(index: usize, x: isize, y: isize, user_id: u32) -> MapCell {
    MapCell {
        id: 100 + index as u32,
        index,
        cell_type: MapCellType::Valid,
        buffs: Vec::new(),
        is_world: false,
        element: 0,
        passive_buffs: Vec::new(),
        user_id,
        open_user: 0,
        pair_index: None,
        x,
        y,
    }
}

fn battle(players: Vec<BattlePlayer>, cells: Vec<MapCell>) -> BattleData {
    let mut bd = BattleData::new(RoomType::OneVOneVOneVOneCustom);
    bd.battle_player = players;
    bd.tile_map.map_cells = cells;
    bd
}

fn buff_temp(id: u32, function_id: u32, trigger_times: i8, keep_time: i8) -> BuffTemp {
    BuffTemp { id, function_id, trigger_times, keep_time, par1: 0, par2: 0, scope: 0 }
}

fn buff(id: u32) -> Buff {
    Buff::new(buff_temp(id, id, 1, 0), Vec::new(), None, None, None)
}

fn dead(mut p: BattlePlayer) -> BattlePlayer {
    p.status.battle_state = BattlePlayerState::Died;
    p
}
use battleserver::battle_helper::{Coord2d, Direction2d, SkillJudgeTemp, SkillScopeTemp};
use battleserver::battle_player::RobotData;
use battleserver::robot::RememberCell;
use battleserver::robot_skill::{
    check_unknow_map_cell, get_hp_max_cter, get_hp_min_cter, get_line_aoe, get_nearest_cter, get_roundness_aoe,
    get_triangle_aoe, lex_compare, near_user, pair_useable_skill, rand_not_remember_map_cell, skill_condition,
    skill_open_near_cell_robot, skill_target, LexOrder, SkillTargetError,
};

fn hex_battle() -> BattleData {
    let cells = vec![cell(0, 0, 0, 1), cell(1, 1, 0, 2), cell(2, 0, 1, 3), cell(3, -1, 0, 0), cell(4, 2, 0, 4)];
    let players = vec![
        player(1, 1, vec![cter(11, 1, 20, 1, Some(0))]),
        player(2, 2, vec![cter(21, 2, 30, 2, Some(1))]),
        player(3, 3, vec![cter(31, 3, 50, 3, Some(2))]),
        player(4, 1, vec![cter(41, 4, 40, 1, Some(4))]),
    ];
    battle(players, cells)
}

fn ring() -> SkillScopeTemp {
    let offsets = [(-1, 1), (0, 1), (1, 0), (1, -1), (0, -1), (-1, 0)];
    SkillScopeTemp {
        id: 2,
        scope2d: offsets.iter().map(|&(x, y)| Direction2d { direction2d: vec![Coord2d { x, y }] }).collect(),
    }
}

fn robot(remember: Vec<RememberCell>) -> RobotData {
    RobotData { robot_id: 1, remember_map_cell: remember }
}

#[test]
fn lex_compare_orders_like_vec() {
    assert_eq!(lex_compare(&vec![1, 2], &vec![1, 3]), LexOrder::Less);
    assert_eq!(lex_compare(&vec![1, 2], &vec![1, 2]), LexOrder::Equal);
    assert_eq!(lex_compare(&vec![2], &vec![1, 9]), LexOrder::Greater);
    assert_eq!(lex_compare(&vec![1], &vec![1, 0]), LexOrder::Less);
}

#[test]
fn roundness_and_triangle_pick_the_greatest_area() {
    let bd = hex_battle();
    // the round area centred on cell 1 hits two characters, the first such
    assert_eq!(get_roundness_aoe(1, &bd, false, false, false, false, Some(1)), Some(vec![1, 2]));
    // with only empty cells as centres, the one area is empty
    assert_eq!(get_roundness_aoe(1, &bd, true, false, true, true, Some(1)), Some(vec![]));
    assert_eq!(get_triangle_aoe(1, &bd, Some(1)), Some(vec![4, 1]));
    let empty = battle(vec![], vec![]);
    assert_eq!(get_roundness_aoe(1, &empty, false, false, false, false, None), None);
    assert_eq!(get_triangle_aoe(1, &empty, None), None);
}

#[test]
fn line_aoe_takes_a_line_with_most_players() {
    let bd = hex_battle();
    let (count, cells) = get_line_aoe(1, &bd).unwrap();
    assert_eq!(count, 2);
    assert!(cells == vec![2, 1] || cells == vec![4, 1] || cells == vec![1, 4], "{:?}", cells);
    let alone = battle(vec![player(1, 1, vec![cter(11, 1, 20, 1, Some(0))])], vec![cell(0, 0, 0, 1)]);
    assert_eq!(get_line_aoe(1, &alone), None);
}

#[test]
fn hp_and_distance_searches() {
    let bd = hex_battle();
    assert_eq!(get_hp_max_cter(&bd, 1, None), Some(2));
    assert_eq!(get_hp_max_cter(&bd, 1, Some(3)), Some(4));
    assert_eq!(get_hp_min_cter(&bd, Some(1)), Some(1));
    assert_eq!(get_hp_min_cter(&bd, None), Some(0));
    assert_eq!(get_nearest_cter(&bd, 11, Some(1)), Some(1));
    assert_eq!(get_nearest_cter(&bd, 99, Some(1)), None);
    // a character on cell 0 is found too
    let only_first = battle(
        vec![player(1, 1, vec![cter(11, 1, 20, 1, Some(1))]), player(2, 2, vec![cter(21, 2, 30, 2, Some(0))])],
        vec![cell(0, 0, 0, 2), cell(1, 1, 0, 1)],
    );
    assert_eq!(get_hp_max_cter(&only_first, 1, None), Some(0));
    assert_eq!(get_hp_max_cter(&only_first, 2, None), Some(1));
}

#[test]
fn unknown_and_unpaired_cells() {
    let bd = hex_battle();
    let all = check_unknow_map_cell(&bd.tile_map, &robot(vec![])).unwrap();
    assert!(all <= 4);
    for _ in 0..20 {
        let x = check_unknow_map_cell(&bd.tile_map, &robot(vec![RememberCell::new(0, 100), RememberCell::new(2, 102)])).unwrap();
        assert!([1, 3, 4].contains(&x));
    }
    let known: Vec<RememberCell> = (0..5).map(|i| RememberCell::new(i, 100 + i as u32)).collect();
    assert_eq!(check_unknow_map_cell(&bd.tile_map, &robot(known)), None);
    let mut map = bd.tile_map;
    map.un_pair_map = vec![(1, 101), (3, 103)];
    assert_eq!(rand_not_remember_map_cell(&map, &robot(vec![RememberCell::new(1, 101)])), Some(3));
    for _ in 0..20 {
        let two = robot(vec![RememberCell::new(1, 101), RememberCell::new(4, 104)]);
        assert_eq!(rand_not_remember_map_cell(&map, &two), Some(3));
    }
    let both = rand_not_remember_map_cell(&map, &robot(vec![RememberCell::new(1, 101), RememberCell::new(3, 103)])).unwrap();
    assert!(both == 1 || both == 3);
    let y = rand_not_remember_map_cell(&map, &robot(vec![])).unwrap();
    assert!(y == 1 || y == 3);
}

#[test]
fn near_cells_for_the_opening_skill() {
    let bd = hex_battle();
    let near = ring();
    let x = skill_open_near_cell_robot(&bd, &robot(vec![]), &near).unwrap();
    assert!([2, 1, 3].contains(&x));
    assert_eq!(skill_open_near_cell_robot(&bd, &robot(vec![RememberCell::new(4, 102)]), &near), Some(2));
    assert!(near_user(&bd, 11, &near));
    let alone = battle(vec![player(1, 1, vec![cter(11, 1, 20, 1, Some(0))])], vec![cell(0, 0, 0, 1)]);
    assert!(!near_user(&alone, 11, &near));
}

#[test]
fn skill_target_by_function() {
    let bd = hex_battle();
    let near = ring();
    let r = robot(vec![]);
    assert_eq!(skill_target(&bd, &skill(1, 123, 0), &r, &near), Ok(vec![2]));
    assert_eq!(skill_target(&bd, &skill(1, 11005, 0), &r, &near), Ok(vec![2]));
    assert_eq!(skill_target(&bd, &skill(1, 11009, 0), &r, &near), Ok(vec![1, 2]));
    assert_eq!(skill_target(&bd, &skill(1, 12003, 0), &r, &near), Ok(vec![0]));
    assert_eq!(skill_target(&bd, &skill(1, 12004, 0), &r, &near), Ok(vec![1]));
    assert_eq!(skill_target(&bd, &skill(1, 13002, 0), &r, &near), Ok(vec![1]));
    assert_eq!(skill_target(&bd, &skill(1, 11007, 0), &r, &near), Ok(vec![4, 1]));
    assert_eq!(skill_target(&bd, &skill(1, 432, 0), &r, &near), Ok(vec![1, 2]));
    assert_eq!(skill_target(&bd, &skill(1, 431, 0), &r, &near), Ok(vec![]));
    assert_eq!(skill_target(&bd, &skill(1, 211, 0), &r, &near), Ok(vec![]));
    assert_eq!(skill_target(&bd, &skill(1, 11004, 0), &r, &near), Err(SkillTargetError::Unsupported(11004)));
    assert_eq!(skill_target(&bd, &skill(1, 411, 0), &r, &near).unwrap().len(), 2);
}

#[test]
fn skill_condition_by_function() {
    let mut bd = hex_battle();
    let near = ring();
    let r = robot(vec![]);
    let judges: Vec<SkillJudgeTemp> = vec![];
    assert!(!skill_condition(&bd, &skill(1, 431, 0), &r, &judges, &near));
    assert!(skill_condition(&bd, &skill(1, 999, 0), &r, &judges, &near));
    assert!(!skill_condition(&bd, &skill(1, 999, 1), &r, &judges, &near));
    assert!(!skill_condition(&bd, &skill(1, 211, 0), &r, &judges, &near));
    assert!(skill_condition(&bd, &skill(1, 321, 0), &r, &judges, &near));
    assert!(!skill_condition(&bd, &skill(1, 313, 0), &r, &judges, &near));
    assert!(skill_condition(&bd, &skill(1, 411, 0), &r, &judges, &near));
    assert!(!skill_condition(&bd, &skill(1, 331, 0), &r, &judges, &near));
    bd.battle_player[0].flow_data.pair_usable_skills.insert(331);
    assert!(pair_useable_skill(&bd.battle_player[0]));
    assert!(skill_condition(&bd, &skill(1, 331, 0), &r, &judges, &near));
    assert!(!skill_condition(&bd, &skill(1, 13004, 0), &r, &judges, &near));
}
