use battleserver::battle::BattleData;
use battleserver::battle_buff::{Buff, BuffTemp};
use battleserver::battle_cter::{BaseAttr, BattleBuff, BattleCharacter};
use battleserver::battle_enum::{BattleCterState, BattlePlayerState};
use battleserver::battle_player::{BattlePlayer, BattleStatus, IndexData, MerchandiseData, TurnFlowData};
use battleserver::battle_skill::{Skill, SkillTemp};
use battleserver::map_data::{MapCell, MapCellType};
use battleserver::mgr::League;
use battleserver::mission::MissionData;
use battleserver::room::RoomType;

fn skill_temp(id: u32, function_id: u32, cd: i8) -> SkillTemp {
    SkillTemp {
        id,
        function_id,
        cd,
        consume_type: 0,
        consume_value: 0,
        skill_judge: 0,
        target: 0,
        scope: 0,
        par1: 0,
        par2: 0,
        view_target: 0,
    }
}

fn skill(id: u32, function_id: u32, cd_times: i8) -> Skill {
    Skill { id, function_id, skill_temp: skill_temp(id, function_id, 3), cd_times, is_active: false }
}

fn cter(cter_id: u32, user_id: u32, hp: i16, team_id: u8, index: Option<usize>) -> BattleCharacter {
    let mut base_attr = BaseAttr::new();
    base_attr.cter_id = cter_id;
    base_attr.user_id = user_id;
    base_attr.hp = hp;
    base_attr.team_id = team_id;
    BattleCharacter {
        base_attr,
        battle_buffs: BattleBuff::new(),
        index_data: IndexData { map_cell_index: index, last_map_cell_index: None },
        state: if hp > 0 { BattleCterState::Alive } else { BattleCterState::Died },
        revenge_user_id: 0,
        skills: Vec::new(),
        items: Vec::new(),
        self_transform_cter: None,
        self_cter: None,
        owner: None,
        minons: Vec::new(),
        is_major: true,
    }
}

fn player(user_id: u32, team_id: u8, cters: Vec<BattleCharacter>) -> BattlePlayer {
    let first = cters.first().map(|c| c.base_attr.cter_id).unwrap_or(0);
    BattlePlayer {
        user_id,
        name: format!("p{}", user_id),
        gold: 10,
        grade: 1,
        league: League { score: 0, league_time: 0, league_id: 0 },
        mission_data: MissionData::new(),
        merchandise_data: MerchandiseData::new(),
        cters,
        major_cter: (first, 0),
        current_cter: (first, 0),
        flow_data: TurnFlowData::new(),
        status: BattleStatus::new(),
        robot_data: None,
        team_id,
    }
}

fn cell(index: usize, x: isize, y: isize, user_id: u32) -> MapCell {
    MapCell {
        id: 100 + index as u32,
        index,
        cell_type: MapCellType::Valid,
        buffs: Vec::new(),
        is_world: false,
        element: 0,
        passive_buffs: Vec::new(),
        user_id,
        open_user: 0,
        pair_index: None,
        x,
        y,
    }
}

fn battle(players: Vec<BattlePlayer>, cells: Vec<MapCell>) -> BattleData {
    let mut bd = BattleData::new(RoomType::OneVOneVOneVOneCustom);
    bd.battle_player = players;
    bd.tile_map.map_cells = cells;
    bd
}

fn buff_temp(id: u32, function_id: u32, trigger_times: i8, keep_time: i8) -> BuffTemp {
    BuffTemp { id, function_id, trigger_times, keep_time, par1: 0, par2: 0, scope: 0 }
}

fn buff(id: u32) -> Buff {
    Buff::new(buff_temp(id, id, 1, 0), Vec::new(), None, None, None)
}

fn dead(mut p: BattlePlayer) -> BattlePlayer {
    p.status.battle_state = BattlePlayerState::Died;
    p
}
use battleserver::mission::MissionTemp;
use battleserver::room::RoomState;
use battleserver::room_flow::{Character, Member, PunishMatch, Room, RoomAction, RoomSetting, remove_player};
use battleserver::season::new_season;

fn character() -> Character {
    Character { cter_temp_id: 1, is_robot: false, skills: Vec::new(), last_use_skills: Vec::new() }
}

fn member(user_id: u32, is_robot: bool, league_id: i8) -> Member {
    Member {
        user_id,
        nick_name: format!("m{}", user_id),
        grade: 1,
        league: League { score: 0, league_time: 0, league_id },
        team_id: 1,
        is_robot,
        cters: vec![character()],
        chose_cter: character(),
        punish_match: PunishMatch { start_time: 0, punish_id: 0 },
        join_time: 0,
    }
}

fn mission_temp(id: u32) -> MissionTemp {
    MissionTemp {
        id,
        complete_condition: 1,
        complete_par1: 0,
        complete_par2: 0,
        complete_par3: 0,
        complete_value: 1,
        complete_reward: 10,
    }
}

fn room(room_type: RoomType, members: Vec<Member>, players: Vec<BattlePlayer>) -> Room {
    let cells: Vec<MapCell> = (0..6).map(|i| cell(i, i as isize, 0, 0)).collect();
    let mut bd = battle(players, cells);
    bd.room_type = room_type;
    Room {
        id: 9,
        room_type,
        owner_id: 1,
        state: RoomState::ChoiceIndex,
        members,
        member_index: [1, 2, 0, 0],
        setting: RoomSetting { turn_limit_time: 60, season_id: 1, ai_level: 0 },
        battle_data: bd,
    }
}

fn two_room(room_type: RoomType) -> Room {
    let players = vec![player(1, 1, vec![cter(11, 1, 20, 1, None)]), player(2, 2, vec![cter(21, 2, 20, 2, None)])];
    let mut r = room(room_type, vec![member(1, false, 3), member(2, false, 5)], players);
    r.battle_data.turn_orders = [1, 2, 0, 0];
    r
}

#[test]
fn room_getters_and_user() {
    let mut r = two_room(RoomType::OneVOneVOneVOneCustom);
    assert_eq!(r.get_room_id(), 9);
    assert_eq!(r.get_state(), RoomState::ChoiceIndex);
    assert_eq!(r.get_room_type(), RoomType::OneVOneVOneVOneCustom);
    assert!(!r.is_empty());
    assert_eq!(r.get_user(), 1);
    r.members = vec![member(4, true, 0), member(0, false, 0), member(7, false, 0)];
    assert_eq!(r.get_user(), 7);
    r.members = vec![member(4, true, 0)];
    assert_eq!(r.get_user(), 0);
    r.members = Vec::new();
    assert!(r.is_empty());
}

#[test]
fn turn_order_slots() {
    let mut r = two_room(RoomType::OneVOneVOneVOneCustom);
    assert!(r.is_can_choice_index_now(1));
    assert!(!r.is_can_choice_index_now(2));
    r.insert_turn_orders(3, 8);
    assert!(r.turn_order_contains(8));
    r.insert_turn_orders(4, 9);
    assert!(!r.turn_order_contains(9));
    r.remove_turn_orders(3);
    assert_eq!(r.battle_data.turn_orders, [1, 2, 0, 0]);
    r.remove_turn_orders(7);
    assert_eq!(r.battle_data.turn_orders, [1, 2, 0, 0]);
    r.set_next_turn_index(5);
    assert_eq!(r.get_next_turn_index(), 5);
    assert!(!r.is_can_choice_index_now(1));
    assert!(!r.check_index_over());
    r.state = RoomState::BattleStarted;
    assert!(r.check_index_over());
    r.state = RoomState::AwaitReady;
    assert!(!r.check_index_over());
}

#[test]
fn choice_index_places_and_moves_on() {
    let mut r = two_room(RoomType::OneVOneVOneVOneCustom);
    let missions = vec![mission_temp(1), mission_temp(2)];
    assert_eq!(r.choice_index(1, 3, &missions), Some(RoomAction::ChoiceIndexTask));
    assert_eq!(r.battle_data.battle_player[0].cters[0].index_data.map_cell_index, Some(3));
    assert_eq!(r.battle_data.tile_map.map_cells[3].user_id, 1);
    assert_eq!(r.battle_data.next_turn_index, 1);
    assert_eq!(r.state, RoomState::ChoiceIndex);
    let m = r.battle_data.battle_player[0].mission_data.mission.unwrap().mission_temp.id;
    assert!(m == 1 || m == 2);
    assert_eq!(r.choice_index(2, 5, &missions), Some(RoomAction::StartBattle));
    assert_eq!(r.state, RoomState::BattleStarted);
    assert_eq!(r.battle_data.next_turn_index, 0);
    assert_eq!(r.choice_index(9, 1, &missions), None);
}

#[test]
fn init_turn_order_fills_free_slots() {
    let mut r = two_room(RoomType::OneVOneVOneVOneCustom);
    r.battle_data.turn_orders = [1, 0, 0, 0];
    r.state = RoomState::AwaitReady;
    r.init_turn_order();
    assert_eq!(r.state, RoomState::ChoiceIndex);
    assert_eq!(r.battle_data.turn_orders[0], 1);
    assert_eq!(r.battle_data.turn_orders.iter().filter(|&&u| u == 2).count(), 1);
    assert_eq!(r.battle_data.turn_orders.iter().filter(|&&u| u == 0).count(), 2);
    assert_eq!(r.battle_data.next_turn_index, 0);
    assert_eq!(r.battle_data.leave_map, vec![(1, 3), (2, 5)]);

    let mut r = two_room(RoomType::OneVOneVOneVOneCustom);
    r.battle_data.turn_orders = [0, 0, 0, 0];
    r.battle_data.leave_map = vec![(2, 1)];
    r.init_turn_order();
    assert_eq!(r.battle_data.leave_map, vec![(2, 5), (1, 3)]);
    let next = r.battle_data.next_turn_index;
    assert!(r.battle_data.turn_orders[next] == 1 || r.battle_data.turn_orders[next] == 2);
}

#[test]
fn leaving_while_choosing() {
    let mut r = two_room(RoomType::OneVOneVOneVOneCustom);
    r.battle_data.tile_map.map_cells[4].user_id = 1;
    assert_eq!(r.handler_leave_choice_index(1, 0), Some(RoomAction::ChoiceIndexTask));
    assert_eq!(r.battle_data.turn_orders, [0, 2, 0, 0]);
    assert_eq!(r.battle_data.battle_player.len(), 1);
    assert_eq!(r.battle_data.tile_map.map_cells[4].user_id, 0);
    assert_eq!(r.battle_data.next_turn_index, 1);

    let mut r = two_room(RoomType::OneVOneVOneVOneCustom);
    assert_eq!(r.handler_leave_choice_index(2, 1), None);
    assert_eq!(r.battle_data.turn_orders, [1, 0, 0, 0]);
    assert_eq!(r.battle_data.next_turn_index, 0);

    let mut r = two_room(RoomType::OneVOneVOneVOneCustom);
    r.battle_data.turn_orders = [2, 0, 0, 1];
    r.battle_data.next_turn_index = 3;
    assert_eq!(r.handler_leave_choice_index(1, 3), Some(RoomAction::StartBattle));
    assert_eq!(r.state, RoomState::BattleStarted);
    assert_eq!(r.battle_data.next_turn_index, 0);
}

#[test]
fn punishment_only_in_matched_rooms() {
    let mut r = two_room(RoomType::OneVOneVOneVOneMatch);
    assert!(r.handler_punish(1));
    assert_eq!(r.members[0].punish_match.punish_id, 1);
    assert!(r.add_punish(2));
    assert_eq!(r.members[1].punish_match.punish_id, 1);
    assert!(!r.add_punish(9));
    r.battle_data.battle_player[1] = dead(player(2, 2, vec![cter(21, 2, 20, 2, None)]));
    assert!(!r.handler_punish(2));
    let mut c = two_room(RoomType::OneVOneVOneVOneCustom);
    assert!(!c.handler_punish(1));
    assert_eq!(c.members[0].punish_match.punish_id, 0);
}

#[test]
fn remove_player_and_season() {
    let mut ps = vec![player(1, 1, vec![]), player(2, 1, vec![]), player(1, 2, vec![])];
    remove_player(&mut ps, 1);
    assert_eq!(ps.len(), 2);
    assert_eq!(ps[0].user_id, 2);
    assert_eq!(ps[1].team_id, 2);
    remove_player(&mut ps, 7);
    assert_eq!(ps.len(), 2);
    let s = new_season();
    assert_eq!((s.season_id, s.last_update_time, s.next_update_time), (0, 0, 0));
}
