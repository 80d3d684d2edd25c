use battleserver::battle::BattleData;
use battleserver::battle_buff::{Buff, BuffTemp};
use battleserver::battle_cter::{BaseAttr, BattleBuff, BattleCharacter};
use battleserver::battle_enum::{BattleCterState, BattlePlayerState};
use battleserver::battle_player::{BattlePlayer, BattleStatus, IndexData, MerchandiseData, TurnFlowData};
use battleserver::battle_skill::{Skill, SkillTemp};
use battleserver::map_data::{MapCell, MapCellType};
use battleserver::mgr::League;
use battleserver::mission::MissionData;
use battleserver::room::RoomType;

fn skill_temp(id: u32, function_id: u32, cd: i8) -> SkillTemp {
    SkillTemp {
        id,
        function_id,
        cd,
        consume_type: 0,
        consume_value: 0,
        skill_judge: 0,
        target: 0,
        scope: 0,
        par1: 0,
        par2: 0,
        view_target: 0,
    }
}

fn skill(id: u32, function_id: u32, cd_times: i8) -> Skill {
    Skill { id, function_id, skill_temp: skill_temp(id, function_id, 3), cd_times, is_active: false }
}

fn cter(cter_id: u32, user_id: u32, hp: i16, team_id: u8, index: Option<usize>) -> BattleCharacter {
    let mut base_attr = BaseAttr::new();
    base_attr.cter_id = cter_id;
    base_attr.user_id = user_id;
    base_attr.hp = hp;
    base_attr.team_id = team_id;
    BattleCharacter {
        base_attr,
        battle_buffs: BattleBuff::new(),
        index_data: IndexData { map_cell_index: index, last_map_cell_index: None },
        state: if hp > 0 { BattleCterState::Alive } else { BattleCterState::Died },
        revenge_user_id: 0,
        skills: Vec::new(),
        items: Vec::new(),
        self_transform_cter: None,
        self_cter: None,
        owner: None,
        minons: Vec::new(),
        is_major: true,
    }
}

fn player(user_id: u32, team_id: u8, cters: Vec<BattleCharacter>) -> BattlePlayer {
    let first = cters.first().map(|c| c.base_attr.cter_id).unwrap_or(0);
    BattlePlayer {
        user_id,
        name: format!("p{}", user_id),
        gold: 10,
        grade: 1,
        league: League { score: 0, league_time: 0, league_id: 0 },
        mission_data: MissionData::new(),
        merchandise_data: MerchandiseData::new(),
        cters,
        major_cter: (first, 0),
        current_cter: (first, 0),
        flow_data: TurnFlowData::new(),
        status: BattleStatus::new(),
        robot_data: None,
        team_id,
    }
}

fn cell(index: usize, x: isize, y: isize, user_id: u32) -> MapCell {
    MapCell {
        id: 100 + index as u32,
        index,
        cell_type: MapCellType::Valid,
        buffs: Vec::new(),
        is_world: false,
        element: 0,
        passive_buffs: Vec::new(),
        user_id,
        open_user: 0,
        pair_index: None,
        x,
        y,
    }
}

fn battle(players: Vec<BattlePlayer>, cells: Vec<MapCell>) -> BattleData {
    let mut bd = BattleData::new(RoomType::OneVOneVOneVOneCustom);
    bd.battle_player = players;
    bd.tile_map.map_cells = cells;
    bd
}

fn buff_temp(id: u32, function_id: u32, trigger_times: i8, keep_time: i8) -> BuffTemp {
    BuffTemp { id, function_id, trigger_times, keep_time, par1: 0, par2: 0, scope: 0 }
}

fn buff(id: u32) -> Buff {
    Buff::new(buff_temp(id, id, 1, 0), Vec::new(), None, None, None)
}

fn dead(mut p: BattlePlayer) -> BattlePlayer {
    p.status.battle_state = BattlePlayerState::Died;
    p
}
use battleserver::battle_enum::ActionType;
use battleserver::battle_helper::ChoiceError;
use battleserver::mission::MissionTemp;
use battleserver::request::{
    action, check_user, choice_index, emoji, pos, skip_turn, unlock_oper, BattleMgr, EmojiTemp, RequestError, SkipTurn,
};
use battleserver::room::RoomState;
use battleserver::room_flow::{Character, Member, PunishMatch, Room, RoomAction, RoomSetting};

fn member(user_id: u32) -> Member {
    let c = Character { cter_temp_id: 1, is_robot: false, skills: Vec::new(), last_use_skills: Vec::new() };
    Member {
        user_id,
        nick_name: format!("m{}", user_id),
        grade: 1,
        league: League { score: 0, league_time: 0, league_id: 0 },
        team_id: 1,
        is_robot: false,
        cters: Vec::new(),
        chose_cter: c,
        punish_match: PunishMatch { start_time: 0, punish_id: 0 },
        join_time: 0,
    }
}

fn mission_temp(id: u32) -> MissionTemp {
    MissionTemp { id, complete_condition: 1, complete_par1: 0, complete_par2: 0, complete_par3: 0, complete_value: 1, complete_reward: 1 }
}

fn fighting_room(state: RoomState, id: u32) -> Room {
    let mut c1 = cter(11, 1, 20, 1, Some(0));
    c1.skills.push(skill(7, 100, 0));
    let players = vec![player(1, 1, vec![c1]), player(2, 2, vec![cter(21, 2, 20, 2, None)])];
    let cells: Vec<MapCell> = (0..6).map(|i| cell(i, i as isize, 0, 0)).collect();
    let mut bd = battle(players, cells);
    bd.turn_orders = [1, 2, 0, 0];
    Room {
        id,
        room_type: RoomType::OneVOneVOneVOneCustom,
        owner_id: 1,
        state,
        members: vec![member(1), member(2)],
        member_index: [1, 2, 0, 0],
        setting: RoomSetting { turn_limit_time: 60, season_id: 1, ai_level: 0 },
        battle_data: bd,
    }
}

#[test]
fn who_may_act() {
    let mut r = fighting_room(RoomState::BattleStarted, 1);
    assert!(check_user(&r, 1));
    assert!(!check_user(&r, 2));
    assert!(!check_user(&r, 9));
    assert_eq!(action(&r, 1, 1), Some(ActionType::Attack));
    assert_eq!(action(&r, 1, 7), Some(ActionType::EndShowMapCell));
    assert_eq!(action(&r, 1, 0), None);
    assert_eq!(action(&r, 1, 6), None);
    assert_eq!(action(&r, 2, 1), None);
    r.battle_data.battle_player[0].cters[0].index_data.map_cell_index = None;
    assert!(!check_user(&r, 1));
    let r = fighting_room(RoomState::ChoiceIndex, 1);
    assert_eq!(action(&r, 1, 1), None);
}

#[test]
fn unlock_pos_and_emoji_requests() {
    let mut r = fighting_room(RoomState::BattleStarted, 1);
    r.battle_data.battle_player[0].status.locked_oper = 5;
    assert_eq!(unlock_oper(&mut r, 1, 3), Err(RequestError::NoShowCell(3)));
    assert_eq!(r.battle_data.battle_player[0].status.locked_oper, 5);
    assert_eq!(unlock_oper(&mut r, 1, 5), Ok(()));
    assert_eq!(r.battle_data.battle_player[0].status.locked_oper, 0);
    assert!(r.battle_data.battle_player[0].status.is_can_end_turn);
    assert_eq!(unlock_oper(&mut r, 1, 5), Err(RequestError::NoShowCell(5)));

    assert!(pos(&r, 1, 7, 1));
    assert!(pos(&r, 1, 7, 2));
    assert!(!pos(&r, 1, 7, 3));
    assert!(!pos(&r, 1, 8, 1));
    assert!(!pos(&r, 9, 7, 1));

    let temps = vec![
        EmojiTemp { id: 1, condition: 0, cter_id: 0 },
        EmojiTemp { id: 2, condition: 1, cter_id: 0 },
        EmojiTemp { id: 3, condition: 0, cter_id: 11 },
        EmojiTemp { id: 3, condition: 0, cter_id: 0 },
    ];
    assert!(emoji(&r, 1, 1, &temps));
    assert!(!emoji(&r, 1, 2, &temps));
    assert!(emoji(&r, 1, 3, &temps));
    assert!(!emoji(&r, 2, 3, &temps));
    assert!(!emoji(&r, 1, 4, &temps));
    assert!(!emoji(&r, 9, 1, &temps));
}

#[test]
fn choosing_a_start_cell() {
    let missions = vec![mission_temp(1)];
    let mut r = fighting_room(RoomState::ChoiceIndex, 1);
    r.battle_data.tile_map.map_cells[2].is_world = true;
    assert_eq!(choice_index(&mut r, 2, 3, &missions), Err(RequestError::NotYourTurn(2)));
    assert_eq!(choice_index(&mut r, 1, 3, &missions), Err(RequestError::AlreadyChosen(1)));
    r.battle_data.next_turn_index = 1;
    assert_eq!(choice_index(&mut r, 2, 2, &missions), Err(RequestError::Choice(ChoiceError::World(2))));
    assert_eq!(choice_index(&mut r, 2, 9, &missions), Err(RequestError::Choice(ChoiceError::NoMapCell(9))));
    assert_eq!(choice_index(&mut r, 2, 4, &missions), Ok(Some(RoomAction::StartBattle)));
    assert_eq!(r.battle_data.tile_map.map_cells[4].user_id, 2);
    assert_eq!(r.state, RoomState::BattleStarted);
}

#[test]
fn ending_a_turn() {
    let mut r = fighting_room(RoomState::BattleStarted, 1);
    assert_eq!(skip_turn(&mut r, 2), Err(RequestError::NotYourTurn(2)));
    assert_eq!(skip_turn(&mut r, 1), Err(RequestError::CanNotEndTurn(1)));
    r.battle_data.battle_player[0].status.is_can_end_turn = true;
    r.battle_data.tile_map.un_pair_map = vec![(0, 100), (1, 101), (2, 102)];
    assert_eq!(skip_turn(&mut r, 1), Ok(SkipTurn::NextTurn));
    assert_eq!(r.battle_data.next_turn_index, 0);
    r.battle_data.tile_map.un_pair_map = vec![(0, 100)];
    assert_eq!(skip_turn(&mut r, 1), Ok(SkipTurn::RefreshMap));
    assert_eq!(r.battle_data.next_turn_index, 1);
}

#[test]
fn rooms_of_players() {
    let mut bm = BattleMgr::new();
    bm.add_room(fighting_room(RoomState::BattleStarted, 5));
    bm.add_room(fighting_room(RoomState::ChoiceIndex, 6));
    assert_eq!(bm.get_room_ref(1).map(|r| r.id), Some(6));
    assert!(bm.get_room_ref(3).is_none());
    bm.rm_room(6);
    assert_eq!(bm.rooms.len(), 1);
    assert!(bm.get_room_ref(1).is_none());
    bm.rm_room(8);
    assert_eq!(bm.rooms.len(), 1);
}

#[test]
fn removing_a_room_removes_every_room_with_its_id() {
    let mut bm = BattleMgr::new();
    bm.add_room(fighting_room(RoomState::BattleStarted, 5));
    bm.add_room(fighting_room(RoomState::ChoiceIndex, 6));
    bm.add_room(fighting_room(RoomState::BattleStarted, 5));
    bm.rm_room(5);
    assert_eq!(bm.rooms.len(), 1);
    assert_eq!(bm.rooms[0].id, 6);
    assert!(bm.player_room.is_empty());
}
