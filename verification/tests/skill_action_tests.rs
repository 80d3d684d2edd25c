use battleserver::battle::BattleData;
use battleserver::battle_buff::{Buff, BuffTemp};
use battleserver::battle_cter::{BaseAttr, BattleBuff, BattleCharacter};
use battleserver::battle_enum::{BattleCterState, BattlePlayerState};
use battleserver::battle_player::{BattlePlayer, BattleStatus, IndexData, MerchandiseData, TurnFlowData};
use battleserver::battle_skill::{Skill, SkillTemp};
use battleserver::map_data::{MapCell, MapCellType};
use battleserver::mgr::League;
use battleserver::mission::MissionData;
use battleserver::room::RoomType;

fn skill_temp(id: u32, function_id: u32, cd: i8) -> SkillTemp {
    SkillTemp {
        id,
        function_id,
        cd,
        consume_type: 0,
        consume_value: 0,
        skill_judge: 0,
        target: 0,
        scope: 0,
        par1: 0,
        par2: 0,
        view_target: 0,
    }
}

fn skill(id: u32, function_id: u32, cd_times: i8) -> Skill {
    Skill { id, function_id, skill_temp: skill_temp(id, function_id, 3), cd_times, is_active: false }
}

fn cter(cter_id: u32, user_id: u32, hp: i16, team_id: u8, index: Option<usize>) -> BattleCharacter {
    let mut base_attr = BaseAttr::new();
    base_attr.cter_id = cter_id;
    base_attr.user_id = user_id;
    base_attr.hp = hp;
    base_attr.team_id = team_id;
    BattleCharacter {
        base_attr,
        battle_buffs: BattleBuff::new(),
        index_data: IndexData { map_cell_index: index, last_map_cell_index: None },
        state: if hp > 0 { BattleCterState::Alive } else { BattleCterState::Died },
        revenge_user_id: 0,
        skills: Vec::new(),
        items: Vec::new(),
        self_transform_cter: None,
        self_cter: None,
        owner: None,
        minons: Vec::new(),
        is_major: true,
    }
}

fn player(user_id: u32, team_id: u8, cters: Vec<BattleCharacter>) -> BattlePlayer {
    let first = cters.first().map(|c| c.base_attr.cter_id).unwrap_or(0);
    BattlePlayer {
        user_id,
        name: format!("p{}", user_id),
        gold: 10,
        grade: 1,
        league: League { score: 0, league_time: 0, league_id: 0 },
        mission_data: MissionData::new(),
        merchandise_data: MerchandiseData::new(),
        cters,
        major_cter: (first, 0),
        current_cter: (first, 0),
        flow_data: TurnFlowData::new(),
        status: BattleStatus::new(),
        robot_data: None,
        team_id,
    }
}

fn cell(index: usize, x: isize, y: isize, user_id: u32) -> MapCell {
    MapCell {
        id: 100 + index as u32,
        index,
        cell_type: MapCellType::Valid,
        buffs: Vec::new(),
        is_world: false,
        element: 0,
        passive_buffs: Vec::new(),
        user_id,
        open_user: 0,
        pair_index: None,
        x,
        y,
    }
}

fn battle(players: Vec<BattlePlayer>, cells: Vec<MapCell>) -> BattleData {
    let mut bd = BattleData::new(RoomType::OneVOneVOneVOneCustom);
    bd.battle_player = players;
    bd.tile_map.map_cells = cells;
    bd
}

fn buff_temp(id: u32, function_id: u32, trigger_times: i8, keep_time: i8) -> BuffTemp {
    BuffTemp { id, function_id, trigger_times, keep_time, par1: 0, par2: 0, scope: 0 }
}

fn buff(id: u32) -> Buff {
    Buff::new(buff_temp(id, id, 1, 0), Vec::new(), None, None, None)
}

fn dead(mut p: BattlePlayer) -> BattlePlayer {
    p.status.battle_state = BattlePlayerState::Died;
    p
}
use battleserver::battle_enum::{ActionType, EffectType};
use battleserver::battle_helper::{build_action_unit_pt, ActionUnitPt};
use battleserver::buff_type::LOCKED;
use battleserver::skill_action::{add_buff, change_map_cell_index, show_index, show_map_cell, TargetArrayError};
use battleserver::skill_type::{SHOW_ALL_USERS_CELL, SHOW_INDEX_SAME_ELEMENT, SHOW_SAME_ELMENT_CELL_ALL_AND_CURE};

fn line_map() -> Vec<MapCell> {
    vec![cell(0, 0, 0, 0), cell(1, 1, 0, 1), cell(2, 2, 0, 2), cell(3, 3, 0, 0)]
}

fn two_players() -> BattleData {
    let mut bd = battle(
        vec![player(1, 1, vec![cter(11, 1, 20, 1, Some(1))]), player(2, 2, vec![cter(21, 2, 30, 2, Some(2))])],
        line_map(),
    );
    bd.turn_orders = [1, 2, 0, 0];
    bd.next_turn_index = 0;
    bd
}

fn trap(id: u32, viewers: Vec<u32>) -> Buff {
    let mut b = Buff::new(buff_temp(id, 10, 1, 0), Vec::new(), None, None, None);
    b.trap_view_users = viewers;
    b
}

fn empty_unit() -> ActionUnitPt {
    build_action_unit_pt(1, ActionType::Skill, 9)
}

#[test]
fn change_map_cell_index_swaps_two_cells() {
    let mut bd = two_players();
    bd.tile_map.map_cells[0].element = 2;
    bd.tile_map.map_cells[3].element = 3;
    bd.tile_map.map_cells[3].y = 5;
    bd.tile_map.map_cells[0].buffs.push(trap(501, vec![1, 2]));
    let mut au = empty_unit();
    let r = change_map_cell_index(&mut bd, 11, 7, vec![0, 3], &mut au).unwrap();
    assert_eq!(au.targets.len(), 0);
    assert_eq!(r.len(), 2);
    for (k, (user, unit)) in r.iter().enumerate() {
        assert_eq!(*user, [1u32, 2][k]);
        assert_eq!(unit.from_user, 0);
        assert_eq!(unit.targets.len(), 1);
        assert_eq!(unit.targets[0].target_value, vec![0]);
        assert_eq!(unit.targets[0].effects.len(), 1);
        assert_eq!(unit.targets[0].effects[0].effect_type, EffectType::ChangeCellIndex.into_u32());
        assert_eq!(unit.targets[0].effects[0].effect_value, 3);
    }
    let c0 = &bd.tile_map.map_cells[0];
    assert_eq!((c0.id, c0.index, c0.element, c0.x, c0.y, c0.buffs.len()), (103, 0, 3, 0, 0, 0));
    let c3 = &bd.tile_map.map_cells[3];
    // each position keeps its own coordinates
    assert_eq!((c3.id, c3.index, c3.element, c3.x, c3.y, c3.buffs.len()), (100, 3, 2, 3, 5, 1));
}

#[test]
fn change_map_cell_index_tells_everybody_of_a_locked_cell() {
    let mut bd = two_players();
    bd.tile_map.map_cells[3].buffs.push(buff(LOCKED));
    let mut au = empty_unit();
    let r = change_map_cell_index(&mut bd, 11, 7, vec![0, 3], &mut au).unwrap();
    assert_eq!(r.len(), 1);
    assert_eq!(r[0].0, 0);
    assert_eq!(r[0].1.targets.len(), 1);
    assert_eq!(r[0].1.targets[0].target_value, vec![3]);
    assert_eq!(r[0].1.targets[0].effects[0].effect_value, 0);
    assert_eq!(bd.tile_map.map_cells[0].buffs.len(), 1);
    assert_eq!(bd.tile_map.map_cells[0].id, 103);
}

#[test]
fn change_map_cell_index_refuses_bad_targets() {
    let mut bd = two_players();
    let mut au = empty_unit();
    assert!(change_map_cell_index(&mut bd, 11, 7, vec![0], &mut au).is_none());
    // a player stands on cell 1
    assert!(change_map_cell_index(&mut bd, 11, 7, vec![0, 1], &mut au).is_none());
    assert!(change_map_cell_index(&mut bd, 11, 7, vec![0, 9], &mut au).is_none());
    assert_eq!(bd.tile_map.map_cells[0].id, 100);
    assert_eq!(bd.tile_map.map_cells[1].id, 101);
}

#[test]
fn show_index_shows_closed_cells_of_the_same_element() {
    let mut bd = two_players();
    for (i, e) in [5u8, 5, 4, 5].iter().enumerate() {
        bd.tile_map.map_cells[i].element = *e;
    }
    bd.tile_map.map_cells[1].open_user = 1;
    bd.battle_player[0].flow_data.open_map_cell_vec_history.push(1);
    let mut au = empty_unit();
    let temp = SkillTemp { function_id: SHOW_INDEX_SAME_ELEMENT, ..skill_temp(9, SHOW_INDEX_SAME_ELEMENT, 0) };
    assert!(show_index(&mut bd, 11, &temp, vec![1], &mut au).is_none());
    let shown: Vec<Vec<u32>> = au.targets.iter().map(|t| t.target_value.clone()).collect();
    assert_eq!(shown, vec![vec![0], vec![3]]);
}

#[test]
fn show_index_needs_a_cell_opened_by_the_player() {
    let mut bd = two_players();
    bd.tile_map.map_cells[1].open_user = 2;
    let mut au = empty_unit();
    let temp = skill_temp(9, SHOW_INDEX_SAME_ELEMENT, 0);
    show_index(&mut bd, 11, &temp, vec![1], &mut au);
    assert_eq!(au.targets.len(), 0);
    // a closed cell cannot be shown from
    show_index(&mut bd, 11, &temp, vec![0], &mut au);
    assert_eq!(au.targets.len(), 0);
}

#[test]
fn show_map_cell_to_the_owner_alone() {
    let mut bd = two_players();
    bd.tile_map.map_cells[3].buffs.push(trap(501, vec![2]));
    let mut au = empty_unit();
    let temp = SkillTemp { view_target: 3, ..skill_temp(9, 0, 0) };
    let r = show_map_cell(&mut bd, 11, &temp, vec![3], &mut au).unwrap();
    assert_eq!(au.targets.len(), 0);
    assert_eq!(r.len(), 2);
    assert_eq!(r[0].0, 1);
    assert_eq!(r[0].1.from_user, 11);
    assert_eq!(r[0].1.action_type, ActionType::Skill.into_u32());
    assert_eq!(r[0].1.action_value, vec![9]);
    assert_eq!(r[0].1.targets[0].target_value, vec![3, 103]);
    assert_eq!(r[1].0, 1);
    assert_eq!(r[1].1.targets[0].add_buffs, vec![501]);
    assert_eq!(r[1].1.targets[0].target_value, vec![3]);
    assert_eq!(bd.tile_map.map_cells[3].buffs[0].trap_view_users, vec![2, 1]);
    assert_eq!(bd.battle_player[0].status.locked_oper, 9);
    assert!(!bd.battle_player[0].status.is_can_end_turn);
}

#[test]
fn show_map_cell_to_everybody_prefers_life() {
    let mut bd = two_players();
    bd.tile_map.un_pair_map = vec![(0, 100), (3, 103)];
    bd.tile_map.map_cells[3].element = 1;
    bd.tile_map.map_cells[3].buffs.push(trap(501, Vec::new()));
    let mut au = empty_unit();
    let temp = SkillTemp { view_target: 4, ..skill_temp(9, SHOW_ALL_USERS_CELL, 0) };
    let r = show_map_cell(&mut bd, 11, &temp, Vec::new(), &mut au).unwrap();
    assert_eq!(au.targets.len(), 1);
    assert_eq!(au.targets[0].target_value, vec![3, 103]);
    assert_eq!(r.len(), 1);
    assert_eq!(r[0].0, 0);
    assert_eq!(r[0].1.targets[0].add_buffs, vec![501]);
    assert_eq!(bd.tile_map.map_cells[3].buffs[0].trap_view_users, vec![1, 2]);
}

#[test]
fn show_map_cell_to_everybody_picks_an_eligible_cell() {
    let mut bd = two_players();
    bd.tile_map.un_pair_map = vec![(1, 101), (0, 100), (3, 103)];
    bd.tile_map.map_cells[1].open_user = 1;
    bd.battle_player[0].flow_data.open_map_cell_vec_history.push(3);
    let mut au = empty_unit();
    let temp = SkillTemp { view_target: 4, ..skill_temp(9, SHOW_ALL_USERS_CELL, 0) };
    let r = show_map_cell(&mut bd, 11, &temp, Vec::new(), &mut au).unwrap();
    assert!(r.is_empty());
    assert_eq!(au.targets[0].target_value, vec![0, 100]);
    bd.tile_map.un_pair_map = vec![(1, 101)];
    let mut au2 = empty_unit();
    assert!(show_map_cell(&mut bd, 11, &temp, Vec::new(), &mut au2).is_none());
    assert_eq!(au2.targets.len(), 0);
}

#[test]
fn show_map_cell_of_the_element_gives_energy() {
    let mut bd = two_players();
    bd.battle_player[0].cters[0].base_attr.max_energy = 10;
    bd.tile_map.map_cells[2].element = 4;
    let mut au = empty_unit();
    let temp = SkillTemp { par1: 4, par2: 3, view_target: 4, ..skill_temp(9, SHOW_SAME_ELMENT_CELL_ALL_AND_CURE, 0) };
    let r = show_map_cell(&mut bd, 11, &temp, vec![2], &mut au).unwrap();
    assert!(r.is_empty());
    assert_eq!(bd.battle_player[0].cters[0].base_attr.energy, 3);
    assert_eq!(au.targets.len(), 2);
    assert_eq!(au.targets[0].target_value, vec![1]);
    assert_eq!(au.targets[0].effects[0].effect_type, EffectType::AddEnergy.into_u32());
    assert_eq!(au.targets[0].effects[0].effect_value, 3);
    assert_eq!(au.targets[1].target_value, vec![2, 102]);
}

#[test]
fn show_map_cell_refuses() {
    let mut bd = two_players();
    let mut au = empty_unit();
    let temp = skill_temp(9, 0, 0);
    assert!(show_map_cell(&mut bd, 11, &temp, Vec::new(), &mut au).is_none());
    // an opened cell cannot be shown
    bd.tile_map.map_cells[3].open_user = 2;
    assert!(show_map_cell(&mut bd, 11, &temp, vec![3], &mut au).is_none());
    let bad_view = SkillTemp { view_target: 99, ..skill_temp(9, 0, 0) };
    assert!(show_map_cell(&mut bd, 11, &bad_view, vec![0], &mut au).is_none());
    bd.battle_player[0].cters[0].state = BattleCterState::Died;
    assert!(show_map_cell(&mut bd, 11, &temp, vec![0], &mut au).is_none());
    assert_eq!(au.targets.len(), 0);
    assert_eq!(bd.battle_player[0].status.locked_oper, 0);
}

#[test]
fn get_battle_player_mut_changes_the_player_in_place() {
    let mut bd = two_players();
    bd.get_battle_player_mut(Some(2), true).unwrap().gold = 77;
    assert_eq!(bd.battle_player[1].gold, 77);
    bd.get_battle_player_mut(None, true).unwrap().gold = 5;
    assert_eq!(bd.battle_player[0].gold, 5);
    assert!(bd.get_battle_player_mut(Some(9), true).is_err());
    bd.get_battle_player_mut_by_map_cell_index(2).unwrap().gold = 8;
    assert_eq!(bd.battle_player[1].gold, 8);
    assert!(bd.get_battle_player_mut_by_map_cell_index(0).is_err());
    assert!(bd.get_battle_player_mut_by_map_cell_index(40).is_err());
}

#[test]
fn clean_all_takes_everything_off() {
    let mut c = cter(11, 1, 20, 1, Some(1));
    c.skills.push(skill(3, 3, 0));
    c.battle_buffs.buffs.push(buff(4));
    c.clean_all();
    assert!(c.skills.is_empty());
    assert!(c.battle_buffs.buffs.is_empty());
    assert_eq!(c.base_attr.hp, 0);
    assert_eq!(c.index_data.map_cell_index, None);
    assert_eq!(c.state, BattleCterState::Alive);
}

#[test]
fn sub_cd_cuts_every_cooldown_of_the_character() {
    let mut bd = two_players();
    bd.battle_player[1].cters[0].skills = vec![skill(5, 5, 3), skill(6, 6, 1)];
    let mut au = empty_unit();
    let temp = SkillTemp { par1: 2, ..skill_temp(9, 0, 0) };
    assert!(battleserver::skill_action::sub_cd(&mut bd, 11, &temp, vec![21], &mut au).is_none());
    assert_eq!(bd.battle_player[1].cters[0].skills[0].cd_times, 1);
    assert_eq!(bd.battle_player[1].cters[0].skills[1].cd_times, 0);
    assert_eq!(au.targets.len(), 1);
    assert_eq!(au.targets[0].target_value, vec![2]);
    assert_eq!(au.targets[0].effects[0].effect_type, EffectType::SubSkillCd.into_u32());
    assert_eq!(au.targets[0].effects[0].effect_value, 2);
}

#[test]
fn sub_cd_needs_a_living_character() {
    let mut bd = two_players();
    bd.battle_player[1].cters[0].skills = vec![skill(5, 5, 3)];
    bd.battle_player[1].cters[0].state = BattleCterState::Died;
    let mut au = empty_unit();
    let temp = SkillTemp { par1: 2, ..skill_temp(9, 0, 0) };
    battleserver::skill_action::sub_cd(&mut bd, 11, &temp, vec![21], &mut au);
    battleserver::skill_action::sub_cd(&mut bd, 11, &temp, vec![77], &mut au);
    assert_eq!(bd.battle_player[1].cters[0].skills[0].cd_times, 3);
    assert!(au.targets.is_empty());
}

#[test]
fn get_target_array_finds_other_players_on_opened_cells() {
    let mut bd = two_players();
    bd.tile_map.map_cells.push(cell(4, 4, 0, 7));
    for c in bd.tile_map.map_cells.iter_mut() {
        c.open_user = 1;
    }
    bd.tile_map.map_cells[2].element = 3;
    let aimed = SkillTemp { target: 17, ..skill_temp(30, 0, 0) };
    let temps = vec![aimed, SkillTemp { target: 99, ..skill_temp(31, 0, 0) }, skill_temp(32, 0, 0)];
    // cell 1 is the player's own, cell 4 holds nobody in the battle
    assert_eq!(bd.get_target_array(1, 30, &temps), Ok(vec![2]));
    let of_element = vec![SkillTemp { target: 17, par2: 4, ..skill_temp(30, 0, 0) }];
    assert_eq!(bd.get_target_array(1, 30, &of_element), Ok(vec![]));
    assert_eq!(bd.get_target_array(1, 31, &temps), Err(TargetArrayError::UnknownTarget(99)));
    assert_eq!(bd.get_target_array(1, 32, &temps), Ok(vec![]));
    assert_eq!(bd.get_target_array(1, 33, &temps), Err(TargetArrayError::NoSkillTemp(33)));
}


fn buff_skill(target: u32, view_target: u8) -> SkillTemp {
    let mut t = skill_temp(7, 121, 2);
    t.target = target;
    t.view_target = view_target;
    t
}

fn with_skill(mut bd: BattleData) -> BattleData {
    bd.battle_player[0].cters[0].skills.push(skill(7, 121, 0));
    bd
}

#[test]
fn add_buff_on_the_caster() {
    let mut bd = with_skill(two_players());
    let mut au = empty_unit();
    let r = add_buff(&mut bd, 11, &buff_skill(3, 0), &buff_temp(40, 4, 1, 2), Vec::new(), vec![], &mut au).unwrap();
    assert!(r.is_empty());
    let c = &bd.battle_player[0].cters[0];
    assert_eq!(c.battle_buffs.buffs.len(), 1);
    assert_eq!(c.battle_buffs.buffs[0].id, 40);
    assert_eq!(c.battle_buffs.buffs[0].from_cter, Some(11));
    assert_eq!(c.battle_buffs.buffs[0].from_skill, Some(7));
    assert!(c.skills[0].is_active);
    assert_eq!(au.targets.len(), 1);
    assert_eq!(au.targets[0].target_value, vec![1]);
    assert_eq!(au.targets[0].add_buffs, vec![40]);
}

#[test]
fn add_buff_on_the_character_of_a_cell() {
    let mut bd = with_skill(two_players());
    let mut au = empty_unit();
    let r = add_buff(&mut bd, 11, &buff_skill(23, 0), &buff_temp(40, 4, 1, 2), Vec::new(), vec![2], &mut au).unwrap();
    assert!(r.is_empty());
    assert!(bd.battle_player[0].cters[0].battle_buffs.buffs.is_empty());
    assert_eq!(bd.battle_player[1].cters[0].battle_buffs.buffs[0].id, 40);
    assert!(bd.battle_player[0].cters[0].skills[0].is_active);
    assert_eq!(au.targets[0].target_value, vec![2]);
}

#[test]
fn add_buff_trap_seen_by_the_caster_alone() {
    let mut bd = with_skill(two_players());
    let mut au = empty_unit();
    let r = add_buff(&mut bd, 11, &buff_skill(1, 3), &buff_temp(41, 10, 1, 0), Vec::new(), vec![3], &mut au).unwrap();
    assert_eq!(au.targets.len(), 0);
    assert_eq!(r.len(), 1);
    assert_eq!(r[0].0, 1);
    assert_eq!(r[0].1.from_user, 11);
    assert_eq!(r[0].1.action_type, ActionType::Skill.into_u32());
    assert_eq!(r[0].1.action_value, vec![7]);
    assert_eq!(r[0].1.targets[0].target_value, vec![3]);
    assert_eq!(r[0].1.targets[0].add_buffs, vec![41]);
    let b = &bd.tile_map.map_cells[3].buffs[0];
    assert_eq!((b.id, b.from_cter, b.from_skill), (41, Some(11), Some(7)));
    assert_eq!(b.trap_view_users, vec![1]);
}

#[test]
fn add_buff_trap_seen_by_everybody() {
    let mut bd = with_skill(two_players());
    bd.tile_map.map_cells[3].buffs.push(trap(41, vec![9]));
    let mut au = empty_unit();
    let r = add_buff(&mut bd, 11, &buff_skill(1, 0), &buff_temp(41, 10, 1, 0), Vec::new(), vec![3], &mut au).unwrap();
    assert!(r.is_empty());
    assert_eq!(au.targets[0].target_value, vec![3]);
    assert_eq!(bd.tile_map.map_cells[3].buffs.len(), 1);
    assert_eq!(bd.tile_map.map_cells[3].buffs[0].trap_view_users, vec![1, 2]);
}

#[test]
fn add_buff_refusals_change_nothing() {
    let mut bd = with_skill(two_players());
    let mut au = empty_unit();
    assert!(add_buff(&mut bd, 11, &buff_skill(1, 0), &buff_temp(41, 10, 1, 0), Vec::new(), vec![], &mut au).is_none());
    assert!(add_buff(&mut bd, 11, &buff_skill(23, 0), &buff_temp(40, 4, 1, 2), Vec::new(), vec![0], &mut au).is_none());
    bd.battle_player[0].cters[0].state = BattleCterState::Died;
    assert!(add_buff(&mut bd, 11, &buff_skill(3, 0), &buff_temp(40, 4, 1, 2), Vec::new(), vec![], &mut au).is_none());
    assert_eq!(au.targets.len(), 0);
    assert!(!bd.battle_player[0].cters[0].skills[0].is_active);
    assert!(bd.battle_player[0].cters[0].battle_buffs.buffs.is_empty());
    assert!(bd.tile_map.map_cells[3].buffs.is_empty());
}
