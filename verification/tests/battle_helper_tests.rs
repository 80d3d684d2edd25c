use battleserver::battle::BattleData;
use battleserver::battle_buff::{Buff, BuffTemp};
use battleserver::battle_cter::{BaseAttr, BattleBuff, BattleCharacter};
use battleserver::battle_enum::{BattleCterState, BattlePlayerState};
use battleserver::battle_player::{BattlePlayer, BattleStatus, IndexData, MerchandiseData, TurnFlowData};
use battleserver::battle_skill::{Skill, SkillTemp};
use battleserver::map_data::{MapCell, MapCellType};
use battleserver::mgr::League;
use battleserver::mission::MissionData;
use battleserver::room::RoomType;

fn skill_temp(id: u32, function_id: u32, cd: i8) -> SkillTemp {
    SkillTemp {
        id,
        function_id,
        cd,
        consume_type: 0,
        consume_value: 0,
        skill_judge: 0,
        target: 0,
        scope: 0,
        par1: 0,
        par2: 0,
        view_target: 0,
    }
}

fn skill(id: u32, function_id: u32, cd_times: i8) -> Skill {
    Skill { id, function_id, skill_temp: skill_temp(id, function_id, 3), cd_times, is_active: false }
}

fn cter(cter_id: u32, user_id: u32, hp: i16, team_id: u8, index: Option<usize>) -> BattleCharacter {
    let mut base_attr = BaseAttr::new();
    base_attr.cter_id = cter_id;
    base_attr.user_id = user_id;
    base_attr.hp = hp;
    base_attr.team_id = team_id;
    BattleCharacter {
        base_attr,
        battle_buffs: BattleBuff::new(),
        index_data: IndexData { map_cell_index: index, last_map_cell_index: None },
        state: if hp > 0 { BattleCterState::Alive } else { BattleCterState::Died },
        revenge_user_id: 0,
        skills: Vec::new(),
        items: Vec::new(),
        self_transform_cter: None,
        self_cter: None,
        owner: None,
        minons: Vec::new(),
        is_major: true,
    }
}

fn player(user_id: u32, team_id: u8, cters: Vec<BattleCharacter>) -> BattlePlayer {
    let first = cters.first().map(|c| c.base_attr.cter_id).unwrap_or(0);
    BattlePlayer {
        user_id,
        name: format!("p{}", user_id),
        gold: 10,
        grade: 1,
        league: League { score: 0, league_time: 0, league_id: 0 },
        mission_data: MissionData::new(),
        merchandise_data: MerchandiseData::new(),
        cters,
        major_cter: (first, 0),
        current_cter: (first, 0),
        flow_data: TurnFlowData::new(),
        status: BattleStatus::new(),
        robot_data: None,
        team_id,
    }
}

fn cell(index: usize, x: isize, y: isize, user_id: u32) -> MapCell {
    MapCell {
        id: 100 + index as u32,
        index,
        cell_type: MapCellType::Valid,
        buffs: Vec::new(),
        is_world: false,
        element: 0,
        passive_buffs: Vec::new(),
        user_id,
        open_user: 0,
        pair_index: None,
        x,
        y,
    }
}

fn battle(players: Vec<BattlePlayer>, cells: Vec<MapCell>) -> BattleData {
    let mut bd = BattleData::new(RoomType::OneVOneVOneVOneCustom);
    bd.battle_player = players;
    bd.tile_map.map_cells = cells;
    bd
}

fn buff_temp(id: u32, function_id: u32, trigger_times: i8, keep_time: i8) -> BuffTemp {
    BuffTemp { id, function_id, trigger_times, keep_time, par1: 0, par2: 0, scope: 0 }
}

fn buff(id: u32) -> Buff {
    Buff::new(buff_temp(id, id, 1, 0), Vec::new(), None, None, None)
}

fn dead(mut p: BattlePlayer) -> BattlePlayer {
    p.status.battle_state = BattlePlayerState::Died;
    p
}
use battleserver::battle::BattleError;
use battleserver::battle_enum::{EffectType, TargetType};
use battleserver::battle_handler::{check_skill_useable, SkillUseError};
use battleserver::battle_helper::{ChoiceError, Coord2d, Direction2d, JudgeError, SkillJudgeTemp, SkillScopeTemp, TargetError};
use battleserver::buff_type::LOCKED;
use battleserver::skill_judge_type::{HP_LIMIT_GT, PAIR_LIMIT, LIMIT_TURN_TIMES};

fn line_map() -> Vec<MapCell> {
    vec![cell(0, 0, 0, 0), cell(1, 1, 0, 1), cell(2, 2, 0, 2), cell(3, 3, 0, 0)]
}

fn two_players() -> BattleData {
    battle(
        vec![player(1, 1, vec![cter(11, 1, 20, 1, Some(1))]), player(2, 2, vec![cter(21, 2, 30, 2, Some(2))])],
        line_map(),
    )
}

#[test]
fn check_choice_index_reports_each_reason() {
    let mut bd = two_players();
    assert_eq!(bd.check_choice_index(9, false, false, false, false, false, false), Err(ChoiceError::NoMapCell(9)));
    bd.tile_map.map_cells[0].cell_type = MapCellType::UnUse;
    assert_eq!(bd.check_choice_index(0, false, false, false, false, false, false), Err(ChoiceError::NotChoosable(0)));
    assert_eq!(bd.check_choice_index(3, true, false, false, false, false, false), Err(ChoiceError::Closed(3)));
    bd.tile_map.map_cells[3].open_user = 2;
    assert_eq!(bd.check_choice_index(3, false, true, false, false, false, false), Err(ChoiceError::Opened(3)));
    bd.tile_map.map_cells[3].open_user = 0;
    bd.tile_map.map_cells[3].pair_index = Some(1);
    assert_eq!(bd.check_choice_index(3, false, true, false, false, false, false), Err(ChoiceError::Paired(3)));
    assert_eq!(bd.check_choice_index(3, false, false, true, false, false, false), Err(ChoiceError::Paired(3)));
    bd.tile_map.map_cells[3].pair_index = None;
    bd.tile_map.map_cells[3].is_world = true;
    assert_eq!(bd.check_choice_index(3, false, false, false, true, false, false), Err(ChoiceError::World(3)));
    bd.tile_map.map_cells[3].is_world = false;
    bd.tile_map.map_cells[3].buffs.push(buff(LOCKED));
    assert_eq!(bd.check_choice_index(3, false, false, false, false, true, false), Err(ChoiceError::Locked(3)));
    assert_eq!(bd.check_choice_index(1, false, false, false, false, false, true), Err(ChoiceError::HasUser(1)));
    assert_eq!(bd.check_choice_index(1, false, false, false, false, false, false), Ok(()));
}

#[test]
fn check_user_target_finds_missing_and_self() {
    let bd = two_players();
    assert_eq!(bd.check_user_target(&[1, 2], None), Ok(()));
    assert_eq!(bd.check_user_target(&[1, 7], None), Err(TargetError::NoPlayer(7)));
    assert_eq!(bd.check_user_target(&[2, 1], Some(1)), Err(TargetError::IsSelf(1)));
}

#[test]
fn check_target_array_by_kind() {
    let bd = two_players();
    assert_eq!(bd.check_target_array(1, TargetType::AnyPlayer, &[]), Ok(()));
    assert_eq!(bd.check_target_array(1, TargetType::Invalid, &[1]), Err(TargetError::InvalidTargetType(TargetType::Invalid)));
    assert_eq!(bd.check_target_array(1, TargetType::PlayerSelf, &[1]), Ok(()));
    assert_eq!(bd.check_target_array(1, TargetType::PlayerSelf, &[2]), Err(TargetError::InvalidTargetType(TargetType::PlayerSelf)));
    assert_eq!(bd.check_target_array(1, TargetType::PlayerSelf, &[1, 2]), Err(TargetError::InvalidTargetType(TargetType::PlayerSelf)));
    assert_eq!(bd.check_target_array(1, TargetType::AllPlayer, &[1, 2]), Ok(()));
    assert_eq!(bd.check_target_array(1, TargetType::OtherAllPlayer, &[2, 1]), Err(TargetError::IsSelf(1)));
    assert_eq!(bd.check_target_array(1, TargetType::OtherAnyPlayer, &[2, 1]), Ok(()));
    assert_eq!(bd.check_target_array(1, TargetType::AllPlayer, &[1, 0]), Err(TargetError::Battle(BattleError::EmptyCell(0))));
    assert_eq!(bd.check_target_array(1, TargetType::NullMapCell, &[0, 2]), Err(TargetError::Choice(ChoiceError::HasUser(2))));
    assert_eq!(bd.check_target_array(1, TargetType::MapCell, &[7]), Err(TargetError::Choice(ChoiceError::NoMapCell(7))));
    assert_eq!(bd.check_target_array(1, TargetType::MapCellOtherPlayer, &[0]), Ok(()));
}

fn ring() -> SkillScopeTemp {
    SkillScopeTemp {
        id: 2,
        scope2d: vec![
            Direction2d { direction2d: vec![Coord2d { x: -1, y: 0 }] },
            Direction2d { direction2d: vec![Coord2d { x: 1, y: 0 }, Coord2d { x: 5, y: 0 }] },
        ],
    }
}

#[test]
fn cal_scope_walks_the_area() {
    let bd = two_players();
    let near = ring();
    // around cell 1 (x = 1): cells 0 and 2, and the player on cell 2
    assert_eq!(bd.cal_scope(1, 1, TargetType::PlayerSelf, None, None, &near), (vec![0, 2], vec![2]));
    // around cell 2: cells 1 and 3; player 2 acts, so only player 1 counts for others
    assert_eq!(bd.cal_scope(2, 2, TargetType::OtherAllPlayer, None, None, &near), (vec![1, 3], vec![1]));
    // with targets, only players on target cells count
    assert_eq!(bd.cal_scope(2, 2, TargetType::AllPlayer, Some(vec![3]), Some(&near), &near), (vec![1, 3], vec![]));
    assert_eq!(bd.cal_scope(2, 2, TargetType::AllPlayer, Some(vec![1, 1]), Some(&near), &near), (vec![1, 3], vec![1]));
    // a centre off the map covers nothing
    assert_eq!(bd.cal_scope(1, 9, TargetType::PlayerSelf, None, None, &near), (vec![], vec![]));
    assert_eq!(bd.cal_scope(1, -1, TargetType::PlayerSelf, None, None, &near), (vec![], vec![]));
}

#[test]
fn get_battle_cter_by_id() {
    let mut bd = two_players();
    assert_eq!(bd.get_battle_cter(21, true).map(|c| c.base_attr.hp), Ok(30));
    assert_eq!(bd.get_battle_cter(99, true).map(|c| c.base_attr.hp), Err(BattleError::NoCter(99)));
    bd.battle_player[1].cters[0].state = BattleCterState::Died;
    assert_eq!(bd.get_battle_cter(21, true).map(|c| c.base_attr.hp), Err(BattleError::CterDied(21)));
    assert_eq!(bd.get_battle_cter(21, false).map(|c| c.base_attr.hp), Ok(30));
}

#[test]
fn check_skill_judge_rules() {
    let mut bd = two_players();
    let temps = vec![
        SkillJudgeTemp { id: HP_LIMIT_GT, target: 3, par1: 25 },
        SkillJudgeTemp { id: LIMIT_TURN_TIMES, target: 3, par1: 0 },
        SkillJudgeTemp { id: PAIR_LIMIT, target: 3, par1: 0 },
        SkillJudgeTemp { id: 9, target: 99, par1: 0 },
        SkillJudgeTemp { id: 10, target: 1, par1: 0 },
    ];
    assert_eq!(bd.check_skill_judge(1, 0, Some(5), &temps), Ok(()));
    assert_eq!(bd.check_skill_judge(1, 77, Some(5), &temps), Err(JudgeError::NoJudgeTemp(77)));
    assert_eq!(bd.check_skill_judge(1, 9, Some(5), &temps), Err(JudgeError::BadTargetType(99)));
    assert_eq!(bd.check_skill_judge(1, 10, Some(5), &temps), Ok(()));
    // player 1 has 20 hp, not above 25
    assert_eq!(bd.check_skill_judge(1, HP_LIMIT_GT, Some(5), &temps), Err(JudgeError::HpLimit(HP_LIMIT_GT)));
    // player 2 has 30 hp
    assert_eq!(bd.check_skill_judge(2, HP_LIMIT_GT, Some(5), &temps), Ok(()));
    assert_eq!(bd.check_skill_judge(1, LIMIT_TURN_TIMES, Some(5), &temps), Ok(()));
    bd.battle_player[0].flow_data.turn_limit_skills.push(5);
    assert_eq!(bd.check_skill_judge(1, LIMIT_TURN_TIMES, Some(5), &temps), Err(JudgeError::TurnLimit(LIMIT_TURN_TIMES)));
    assert_eq!(bd.check_skill_judge(1, PAIR_LIMIT, Some(5), &temps), Err(JudgeError::PairLimit(PAIR_LIMIT)));
    bd.battle_player[0].flow_data.pair_usable_skills.insert(5);
    assert_eq!(bd.check_skill_judge(1, PAIR_LIMIT, Some(5), &temps), Ok(()));
}

#[test]
fn check_skill_useable_cd_and_energy() {
    let c = cter(11, 1, 20, 1, Some(1));
    let mut s = skill(5, 100, 2);
    assert_eq!(check_skill_useable(&c, &s), Err(SkillUseError::CdNotReady(5)));
    s.cd_times = 0;
    assert_eq!(check_skill_useable(&c, &s), Ok(()));
    s.skill_temp.consume_type = 1;
    s.skill_temp.consume_value = 3;
    s.cd_times = 2;
    assert_eq!(check_skill_useable(&c, &s), Err(SkillUseError::EnergyLow(5)));
}

#[test]
fn build_target_pt_and_add_hp() {
    let mut bd = two_players();
    let t = bd.build_target_pt(Some(1), 2, EffectType::Cure, 4, None).unwrap();
    assert_eq!(t.target_value, vec![2]);
    assert_eq!(t.effects.len(), 1);
    assert_eq!(t.effects[0].effect_value, 4);
    assert!(t.passive_effect.is_empty());
    let t = bd.build_target_pt(Some(2), 2, EffectType::Cure, 4, Some(8)).unwrap();
    assert!(t.effects.is_empty());
    assert_eq!(t.passive_effect[0].buff_id, 8);
    assert!(bd.build_target_pt(None, 9, EffectType::Cure, 4, None).is_err());
    assert!(bd.add_hp(None, 2, -5, None).is_ok());
    assert_eq!(bd.battle_player[1].cters[0].base_attr.hp, 25);
    assert!(bd.add_hp(None, 2, -25, None).is_ok());
    assert_eq!(bd.battle_player[1].cters[0].state, BattleCterState::Died);
    assert!(matches!(bd.add_hp(None, 9, 1, None), Err(BattleError::NoPlayer(9))));
}

#[test]
fn consuming_the_last_trigger_removes_the_buff() {
    let mut c = cter(11, 1, 20, 1, Some(0));
    c.battle_buffs.buffs.push(buff(5));
    c.battle_buffs.buffs.push(buff(6));
    c.battle_buffs.add_damage_buffs.push((5, 1));
    assert_eq!(c.consume_buff(5, false), Some(5));
    assert_eq!(c.battle_buffs.buffs.len(), 1);
    assert_eq!(c.battle_buffs.buffs[0].id, 6);
    assert!(c.battle_buffs.add_damage_buffs.is_empty());
    assert_eq!(c.consume_buff(9, false), None);
    assert_eq!(c.battle_buffs.buffs.len(), 1);
}

#[test]
fn consuming_a_buff_with_triggers_left_keeps_it() {
    let mut c = cter(11, 1, 20, 1, Some(0));
    c.battle_buffs.buffs.push(Buff::new(buff_temp(5, 5, 3, 2), Vec::new(), None, None, None));
    assert_eq!(c.consume_buff(5, false), None);
    assert_eq!(c.battle_buffs.buffs[0].trigger_timesed, 2);
    assert_eq!(c.consume_buff(5, true), None);
    assert_eq!(c.battle_buffs.buffs[0].keep_times, 1);
    assert_eq!(c.consume_buff(5, true), Some(5));
    assert!(c.battle_buffs.buffs.is_empty());
}

#[test]
fn a_blocking_buff_used_up_is_reported_done() {
    let mut c = cter(11, 1, 20, 1, Some(0));
    assert_eq!(c.trigger_attack_damge_gd(), (0, false));
    c.battle_buffs.buffs.push(Buff::new(buff_temp(8, 2, 2, 0), Vec::new(), None, None, None));
    assert_eq!(c.trigger_attack_damge_gd(), (8, true));
    assert_eq!(c.battle_buffs.buffs[0].trigger_timesed, 1);
    assert_eq!(c.trigger_attack_damge_gd(), (8, true));
    assert!(c.battle_buffs.buffs.is_empty());
}
