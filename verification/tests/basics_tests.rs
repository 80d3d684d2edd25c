use battleserver::battle::BattleData;
use battleserver::battle_buff::{Buff, BuffTemp};
use battleserver::battle_cter::{BaseAttr, BattleBuff, BattleCharacter};
use battleserver::battle_enum::{BattleCterState, BattlePlayerState};
use battleserver::battle_player::{BattlePlayer, BattleStatus, IndexData, MerchandiseData, TurnFlowData};
use battleserver::battle_skill::{Skill, SkillTemp};
use battleserver::map_data::{MapCell, MapCellType};
use battleserver::mgr::League;
use battleserver::mission::MissionData;
use battleserver::room::RoomType;

fn skill_temp(id: u32, function_id: u32, cd: i8) -> SkillTemp {
    SkillTemp {
        id,
        function_id,
        cd,
        consume_type: 0,
        consume_value: 0,
        skill_judge: 0,
        target: 0,
        scope: 0,
        par1: 0,
        par2: 0,
        view_target: 0,
    }
}

fn skill(id: u32, function_id: u32, cd_times: i8) -> Skill {
    Skill { id, function_id, skill_temp: skill_temp(id, function_id, 3), cd_times, is_active: false }
}

fn cter(cter_id: u32, user_id: u32, hp: i16, team_id: u8, index: Option<usize>) -> BattleCharacter {
    let mut base_attr = BaseAttr::new();
    base_attr.cter_id = cter_id;
    base_attr.user_id = user_id;
    base_attr.hp = hp;
    base_attr.team_id = team_id;
    BattleCharacter {
        base_attr,
        battle_buffs: BattleBuff::new(),
        index_data: IndexData { map_cell_index: index, last_map_cell_index: None },
        state: if hp > 0 { BattleCterState::Alive } else { BattleCterState::Died },
        revenge_user_id: 0,
        skills: Vec::new(),
        items: Vec::new(),
        self_transform_cter: None,
        self_cter: None,
        owner: None,
        minons: Vec::new(),
        is_major: true,
    }
}

fn player(user_id: u32, team_id: u8, cters: Vec<BattleCharacter>) -> BattlePlayer {
    let first = cters.first().map(|c| c.base_attr.cter_id).unwrap_or(0);
    BattlePlayer {
        user_id,
        name: format!("p{}", user_id),
        gold: 10,
        grade: 1,
        league: League { score: 0, league_time: 0, league_id: 0 },
        mission_data: MissionData::new(),
        merchandise_data: MerchandiseData::new(),
        cters,
        major_cter: (first, 0),
        current_cter: (first, 0),
        flow_data: TurnFlowData::new(),
        status: BattleStatus::new(),
        robot_data: None,
        team_id,
    }
}

fn cell(index: usize, x: isize, y: isize, user_id: u32) -> MapCell {
    MapCell {
        id: 100 + index as u32,
        index,
        cell_type: MapCellType::Valid,
        buffs: Vec::new(),
        is_world: false,
        element: 0,
        passive_buffs: Vec::new(),
        user_id,
        open_user: 0,
        pair_index: None,
        x,
        y,
    }
}

fn battle(players: Vec<BattlePlayer>, cells: Vec<MapCell>) -> BattleData {
    let mut bd = BattleData::new(RoomType::OneVOneVOneVOneCustom);
    bd.battle_player = players;
    bd.tile_map.map_cells = cells;
    bd
}

fn buff_temp(id: u32, function_id: u32, trigger_times: i8, keep_time: i8) -> BuffTemp {
    BuffTemp { id, function_id, trigger_times, keep_time, par1: 0, par2: 0, scope: 0 }
}

fn buff(id: u32) -> Buff {
    Buff::new(buff_temp(id, id, 1, 0), Vec::new(), None, None, None)
}

fn dead(mut p: BattlePlayer) -> BattlePlayer {
    p.status.battle_state = BattlePlayerState::Died;
    p
}
use battleserver::battle_handler::is_same;
use battleserver::battle_enum::{ActionType, AttackState, EffectType, ElementType, TargetType};
use battleserver::map_data::TileMap;
use battleserver::mgr::{get_league_by_score, LeagueTemp};
use battleserver::mission::{trigger_mission, MissionCompleteType, MissionTemp, MissionTriggerType};
use battleserver::room::RoomState;
use battleserver::task_timer::{Task, TaskCmd};

fn mission(id: u32, condition: u8, value: u16, reward: u16) -> MissionTemp {
    MissionTemp {
        id,
        complete_condition: condition,
        complete_par1: 0,
        complete_par2: 0,
        complete_par3: 0,
        complete_value: value,
        complete_reward: reward,
    }
}

#[test]
fn enum_codes_round_trip() {
    for v in 0u8..40 {
        if let Some(t) = TargetType::try_from_u8(v) {
            assert_eq!(t.into_u8(), v);
        }
        if let Some(e) = EffectType::try_from_u8(v) {
            assert_eq!(e.into_u8(), v);
        }
        if let Some(a) = ActionType::try_from_u8(v) {
            assert_eq!(a.into_u8(), v);
        }
        if let Some(s) = RoomState::try_from_u8(v) {
            assert_eq!(s.into_u8(), v);
        }
    }
    assert_eq!(ElementType::try_from_u8(0), None);
    assert_eq!(ElementType::Nature.into_u8(), 1);
    assert_eq!(ElementType::try_from_u8(4), Some(ElementType::Fire));
    assert_eq!(AttackState::try_from_u8(9), None);
    assert_eq!(TaskCmd::try_from_u16(3), Some(TaskCmd::BattleTurnTime));
    assert_eq!(TaskCmd::ChoiceIndex.into_u16(), 2);
    let t = Task::new();
    assert_eq!((t.cmd, t.delay, t.user_id, t.index), (TaskCmd::Invalid, 0, 0, None));
}

#[test]
fn skill_cooldown_stays_in_range() {
    let mut s = skill(1, 100, 2);
    s.add_cd(5);
    assert_eq!(s.cd_times, 3);
    s.add_cd(-7);
    assert_eq!(s.cd_times, 0);
    s.add_cd(2);
    assert_eq!(s.cd_times, 2);
    s.clean_cd();
    assert_eq!(s.cd_times, 0);
    s.reset_cd();
    assert_eq!(s.cd_times, 3);
}

#[test]
fn buff_use_counts_down_and_is_spent() {
    let mut b = buff(8);
    assert!(b.consume(0, false));
    assert_eq!(b.trigger_timesed, 0);
    let mut timed = Buff::new(buff_temp(9, 9, 0, 2), Vec::new(), Some(1), None, None);
    assert!(!timed.consume(1, true));
    assert_eq!(timed.keep_times, 1);
    assert!(!timed.consume(0, true));
    assert_eq!(timed.keep_times, 1);
    assert!(timed.consume(1, true));
    assert_eq!(timed.keep_times, 0);
    let mut forever = Buff::new(buff_temp(10, 10, 0, 0), Vec::new(), None, None, None);
    forever.permanent = true;
    assert!(!forever.consume(0, false));
}

#[test]
fn hp_energy_and_gold() {
    let mut c = cter(1, 1, 10, 1, Some(0));
    assert!(!c.add_hp(-4));
    assert_eq!(c.base_attr.hp, 6);
    assert!(c.add_hp(-6));
    assert_eq!(c.state, BattleCterState::Died);
    let mut c = cter(2, 1, 10, 1, None);
    c.base_attr.max_energy = 5;
    c.add_energy(3);
    assert_eq!(c.base_attr.energy, 3);
    c.add_energy(9);
    assert_eq!(c.base_attr.energy, 5);
    c.add_energy(-8);
    assert_eq!(c.base_attr.energy, 0);
    let mut p = player(1, 1, vec![]);
    assert_eq!(p.add_gold(5), 15);
    assert_eq!(p.add_gold(-40), 0);
}

#[test]
fn skill_cooldowns_of_a_character() {
    let mut c = cter(1, 1, 10, 1, None);
    c.skills = vec![skill(1, 100, 2), skill(2, 101, 1)];
    c.skills[1].is_active = true;
    c.sub_skill_cd(None);
    assert_eq!(c.skills[0].cd_times, 1);
    assert_eq!(c.skills[1].cd_times, 1);
    c.sub_skill_cd(Some(3));
    assert_eq!(c.skills[0].cd_times, 0);
    c.skills[0].cd_times = 2;
    c.clean_skill_cd();
    assert_eq!(c.skills[0].cd_times, 0);
    assert_eq!(c.skills[1].cd_times, 1);
}

#[test]
fn leagues_by_score() {
    let temps = vec![
        LeagueTemp { id: 0, score: 0 },
        LeagueTemp { id: 1, score: 100 },
        LeagueTemp { id: 2, score: 300 },
    ];
    assert_eq!(get_league_by_score(&temps, 150), Some(LeagueTemp { id: 1, score: 100 }));
    assert_eq!(get_league_by_score(&temps, 300), Some(LeagueTemp { id: 2, score: 300 }));
    assert_eq!(get_league_by_score(&vec![LeagueTemp { id: 3, score: 10 }], 5), None);
    let mut l = League { score: 90, league_time: 0, league_id: 0 };
    assert_eq!(l.update_score_at(20, &temps, 77), 110);
    assert_eq!((l.league_id, l.league_time), (1, 77));
    assert_eq!(l.update_score_at(-30, &temps, 88), 80);
    assert_eq!((l.league_id, l.league_time), (0, 88));
    assert_eq!(l.update_score_at(-500, &temps, 99), 0);
}

#[test]
fn cells_by_coordinates_and_user() {
    let mut tm = TileMap {
        id: 1,
        map_cells: vec![cell(0, 0, 0, 0), cell(1, 1, 0, 7), cell(2, 0, 1, 0)],
        world_cell_map: Vec::new(),
        un_pair_map: Vec::new(),
    };
    assert_eq!(tm.coord_index(0, 1), Some(2));
    assert_eq!(tm.coord_index(5, 5), None);
    assert_eq!(tm.get_map_cell_index_by_user_id(7), Some(1));
    tm.remove_user(7);
    assert_eq!(tm.map_cells[1].user_id, 0);
    assert_eq!(tm.get_map_cell_index_by_user_id(7), None);
}

#[test]
fn turn_order_moves_past_empty_and_dead_slots() {
    let players = vec![player(1, 1, vec![]), dead(player(2, 2, vec![])), player(3, 3, vec![])];
    let mut bd = battle(players, Vec::new());
    bd.turn_orders = [1, 2, 0, 3];
    assert_eq!(bd.get_turn_user(None), Ok(1));
    assert_eq!(bd.get_alive_player_num(), 2);
    assert_eq!(bd.choice_index_next_turn(), 3);
    assert_eq!(bd.next_turn_index, 3);
    assert_eq!(bd.choice_index_next_turn(), 1);
    assert_eq!(bd.next_turn_index, 0);
    assert!(bd.get_turn_user(Some(4)).is_err());
}

#[test]
fn an_open_cell_event_completes_a_mission() {
    let mut bd = battle(vec![player(1, 1, vec![cter(11, 1, 10, 1, Some(0))])], vec![cell(0, 0, 0, 1)]);
    bd.battle_player[0].mission_data.new_mission(mission(5, MissionCompleteType::OpenCellTimes.into_u8(), 2, 30));
    let events = vec![(MissionTriggerType::OpenCell, 1u16)];
    assert_eq!(trigger_mission(&mut bd, 1, &events, (0, 0)), None);
    assert_eq!(bd.battle_player[0].mission_data.mission.unwrap().progress, 1);
    assert_eq!(trigger_mission(&mut bd, 1, &events, (0, 0)), Some(5));
    assert_eq!(bd.battle_player[0].gold, 40);
    assert_eq!(bd.battle_player[0].mission_data.complete_list, vec![5]);
    let pair = vec![(MissionTriggerType::Pair, 1u16)];
    assert_eq!(trigger_mission(&mut bd, 1, &pair, (0, 0)), None);
}

#[test]
fn is_same_compares_the_lists() {
    assert!(is_same(&[1, 2], &[1, 2]));
    assert!(is_same(&[], &[]));
    assert!(!is_same(&[1, 2], &[2, 1]));
    assert!(!is_same(&[1], &[1, 1]));
}
