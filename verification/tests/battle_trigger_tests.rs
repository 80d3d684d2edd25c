use battleserver::battle::BattleData;
use battleserver::battle_buff::{Buff, BuffTemp};
use battleserver::battle_cter::{BaseAttr, BattleBuff, BattleCharacter};
use battleserver::battle_enum::{BattleCterState, BattlePlayerState};
use battleserver::battle_player::{BattlePlayer, BattleStatus, IndexData, MerchandiseData, TurnFlowData};
use battleserver::battle_skill::{Skill, SkillTemp};
use battleserver::map_data::{MapCell, MapCellType};
use battleserver::mgr::League;
use battleserver::mission::MissionData;
use battleserver::room::RoomType;

fn skill_temp(id: u32, function_id: u32, cd: i8) -> SkillTemp {
    SkillTemp {
        id,
        function_id,
        cd,
        consume_type: 0,
        consume_value: 0,
        skill_judge: 0,
        target: 0,
        scope: 0,
        par1: 0,
        par2: 0,
        view_target: 0,
    }
}

fn skill(id: u32, function_id: u32, cd_times: i8) -> Skill {
    Skill { id, function_id, skill_temp: skill_temp(id, function_id, 3), cd_times, is_active: false }
}

fn cter(cter_id: u32, user_id: u32, hp: i16, team_id: u8, index: Option<usize>) -> BattleCharacter {
    let mut base_attr = BaseAttr::new();
    base_attr.cter_id = cter_id;
    base_attr.user_id = user_id;
    base_attr.hp = hp;
    base_attr.team_id = team_id;
    BattleCharacter {
        base_attr,
        battle_buffs: BattleBuff::new(),
        index_data: IndexData { map_cell_index: index, last_map_cell_index: None },
        state: if hp > 0 { BattleCterState::Alive } else { BattleCterState::Died },
        revenge_user_id: 0,
        skills: Vec::new(),
        items: Vec::new(),
        self_transform_cter: None,
        self_cter: None,
        owner: None,
        minons: Vec::new(),
        is_major: true,
    }
}

fn player(user_id: u32, team_id: u8, cters: Vec<BattleCharacter>) -> BattlePlayer {
    let first = cters.first().map(|c| c.base_attr.cter_id).unwrap_or(0);
    BattlePlayer {
        user_id,
        name: format!("p{}", user_id),
        gold: 10,
        grade: 1,
        league: League { score: 0, league_time: 0, league_id: 0 },
        mission_data: MissionData::new(),
        merchandise_data: MerchandiseData::new(),
        cters,
        major_cter: (first, 0),
        current_cter: (first, 0),
        flow_data: TurnFlowData::new(),
        status: BattleStatus::new(),
        robot_data: None,
        team_id,
    }
}

fn cell(index: usize, x: isize, y: isize, user_id: u32) -> MapCell {
    MapCell {
        id: 100 + index as u32,
        index,
        cell_type: MapCellType::Valid,
        buffs: Vec::new(),
        is_world: false,
        element: 0,
        passive_buffs: Vec::new(),
        user_id,
        open_user: 0,
        pair_index: None,
        x,
        y,
    }
}

fn battle(players: Vec<BattlePlayer>, cells: Vec<MapCell>) -> BattleData {
    let mut bd = BattleData::new(RoomType::OneVOneVOneVOneCustom);
    bd.battle_player = players;
    bd.tile_map.map_cells = cells;
    bd
}

fn buff_temp(id: u32, function_id: u32, trigger_times: i8, keep_time: i8) -> BuffTemp {
    BuffTemp { id, function_id, trigger_times, keep_time, par1: 0, par2: 0, scope: 0 }
}

fn buff(id: u32) -> Buff {
    Buff::new(buff_temp(id, id, 1, 0), Vec::new(), None, None, None)
}

fn dead(mut p: BattlePlayer) -> BattlePlayer {
    p.status.battle_state = BattlePlayerState::Died;
    p
}
use battleserver::battle_trigger::SummaryAwardTemp;
use battleserver::mgr::LeagueTemp;

fn three() -> BattleData {
    battle(
        vec![
            player(1, 1, vec![cter(11, 1, 20, 1, Some(0))]),
            dead(player(2, 2, vec![cter(21, 2, 0, 2, None)])),
            player(3, 3, vec![cter(31, 3, 5, 3, Some(1))]),
        ],
        vec![cell(0, 0, 0, 1), cell(1, 1, 0, 3)],
    )
}

#[test]
fn death_in_a_custom_room_places_the_line_and_hands_on_gold() {
    let mut bd = three();
    bd.after_cter_died_trigger_at(1, 3, true, false, -50, None, &vec![], &vec![], 7);
    assert!(bd.summary_vec_temp.is_empty());
    assert_eq!(bd.summary_vec[2].len(), 1);
    assert_eq!(bd.summary_vec[2][0].user_id, 3);
    assert_eq!(bd.summary_vec[2][0].summary_rank, 2);
    assert_eq!(bd.summary_vec[2][0].reward_score, 0);
    assert_eq!(bd.tile_map.map_cells[1].user_id, 0);
    assert_eq!(bd.battle_player[0].gold, 20);
}

#[test]
fn death_by_ones_own_hand_moves_no_gold() {
    let mut bd = three();
    bd.after_cter_died_trigger_at(3, 3, true, false, -50, None, &vec![], &vec![], 7);
    assert_eq!(bd.tile_map.map_cells[1].user_id, 0);
    assert_eq!(bd.battle_player[0].gold, 10);
    assert_eq!(bd.battle_player[2].gold, 10);
}

#[test]
fn death_not_last_waits_for_a_place() {
    let mut bd = three();
    bd.after_cter_died_trigger_at(0, 3, false, false, -50, None, &vec![], &vec![], 7);
    assert_eq!(bd.summary_vec_temp.len(), 1);
    assert!(bd.summary_vec[2].is_empty());
    assert_eq!(bd.tile_map.map_cells[1].user_id, 0);
    assert_eq!(bd.battle_player[0].gold, 10);
}

#[test]
fn death_without_a_group_stops_early() {
    let mut bd = three();
    bd.summary_vec = vec![];
    bd.after_cter_died_trigger_at(1, 3, true, false, -50, None, &vec![], &vec![], 7);
    assert_eq!(bd.summary_vec_temp.len(), 1);
    assert_eq!(bd.tile_map.map_cells[1].user_id, 3);
    assert_eq!(bd.battle_player[0].gold, 10);
}

#[test]
fn punished_death_in_a_matched_room() {
    let mut bd = three();
    bd.room_type = RoomType::OneVOneVOneVOneMatch;
    bd.after_cter_died_trigger_at(1, 3, true, true, -50, None, &vec![], &vec![], 7);
    let line = &bd.summary_vec[2][0];
    assert_eq!(line.grade, 1);
    assert_eq!(line.league.score, 0);
    assert_eq!(line.reward_score, 0);
}

#[test]
fn scored_death_in_a_matched_room() {
    let mut bd = three();
    bd.room_type = RoomType::OneVOneVOneVOneMatch;
    bd.leave_map = vec![(2, 2), (3, 0)];
    let scores = vec![SummaryAwardTemp { rank: 3, score: 10 }, SummaryAwardTemp { rank: 4, score: 6 }];
    let leagues = vec![LeagueTemp { id: 1, score: 20 }];
    bd.after_cter_died_trigger_at(1, 3, true, false, -50, Some(5), &scores, &leagues, 7);
    let line = &bd.summary_vec[2][0];
    assert_eq!(line.reward_score, 30);
    assert_eq!(line.league.score, 30);
    assert_eq!(line.league.league_id, 1);
    assert_eq!(line.league.league_time, 7);
    assert_eq!(line.grade, 1);
}
