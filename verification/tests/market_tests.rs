use battleserver::battle::BattleData;
use battleserver::battle_buff::{Buff, BuffTemp};
use battleserver::battle_cter::{BaseAttr, BattleBuff, BattleCharacter};
use battleserver::battle_enum::{BattleCterState, BattlePlayerState};
use battleserver::battle_player::{BattlePlayer, BattleStatus, IndexData, MerchandiseData, TurnFlowData};
use battleserver::battle_skill::{Skill, SkillTemp};
use battleserver::map_data::{MapCell, MapCellType};
use battleserver::mgr::League;
use battleserver::mission::MissionData;
use battleserver::room::RoomType;

fn skill_temp(id: u32, function_id: u32, cd: i8) -> SkillTemp {
    SkillTemp {
        id,
        function_id,
        cd,
        consume_type: 0,
        consume_value: 0,
        skill_judge: 0,
        target: 0,
        scope: 0,
        par1: 0,
        par2: 0,
        view_target: 0,
    }
}

fn skill(id: u32, function_id: u32, cd_times: i8) -> Skill {
    Skill { id, function_id, skill_temp: skill_temp(id, function_id, 3), cd_times, is_active: false }
}

fn cter(cter_id: u32, user_id: u32, hp: i16, team_id: u8, index: Option<usize>) -> BattleCharacter {
    let mut base_attr = BaseAttr::new();
    base_attr.cter_id = cter_id;
    base_attr.user_id = user_id;
    base_attr.hp = hp;
    base_attr.team_id = team_id;
    BattleCharacter {
        base_attr,
        battle_buffs: BattleBuff::new(),
        index_data: IndexData { map_cell_index: index, last_map_cell_index: None },
        state: if hp > 0 { BattleCterState::Alive } else { BattleCterState::Died },
        revenge_user_id: 0,
        skills: Vec::new(),
        items: Vec::new(),
        self_transform_cter: None,
        self_cter: None,
        owner: None,
        minons: Vec::new(),
        is_major: true,
    }
}

fn player(user_id: u32, team_id: u8, cters: Vec<BattleCharacter>) -> BattlePlayer {
    let first = cters.first().map(|c| c.base_attr.cter_id).unwrap_or(0);
    BattlePlayer {
        user_id,
        name: format!("p{}", user_id),
        gold: 10,
        grade: 1,
        league: League { score: 0, league_time: 0, league_id: 0 },
        mission_data: MissionData::new(),
        merchandise_data: MerchandiseData::new(),
        cters,
        major_cter: (first, 0),
        current_cter: (first, 0),
        flow_data: TurnFlowData::new(),
        status: BattleStatus::new(),
        robot_data: None,
        team_id,
    }
}

fn cell(index: usize, x: isize, y: isize, user_id: u32) -> MapCell {
    MapCell {
        id: 100 + index as u32,
        index,
        cell_type: MapCellType::Valid,
        buffs: Vec::new(),
        is_world: false,
        element: 0,
        passive_buffs: Vec::new(),
        user_id,
        open_user: 0,
        pair_index: None,
        x,
        y,
    }
}

fn battle(players: Vec<BattlePlayer>, cells: Vec<MapCell>) -> BattleData {
    let mut bd = BattleData::new(RoomType::OneVOneVOneVOneCustom);
    bd.battle_player = players;
    bd.tile_map.map_cells = cells;
    bd
}

fn buff_temp(id: u32, function_id: u32, trigger_times: i8, keep_time: i8) -> BuffTemp {
    BuffTemp { id, function_id, trigger_times, keep_time, par1: 0, par2: 0, scope: 0 }
}

fn buff(id: u32) -> Buff {
    Buff::new(buff_temp(id, id, 1, 0), Vec::new(), None, None, None)
}

fn dead(mut p: BattlePlayer) -> BattlePlayer {
    p.status.battle_state = BattlePlayerState::Died;
    p
}
use battleserver::market::{check_buy, find_merchandise, get_could_buy, handler_buy, MerchandiseTemp, RobotTemp};
use battleserver::mission::{random_mission, MissionTemp};

fn merch(id: u32, price: i32, effect_type: u8, effect_value: i32, limit: u8) -> MerchandiseTemp {
    MerchandiseTemp { id, price, effect_type, effect_value, turn_limit_buy_times: limit }
}

fn mission_temp(id: u32) -> MissionTemp {
    MissionTemp {
        id,
        complete_condition: 1,
        complete_par1: 0,
        complete_par2: 0,
        complete_par3: 0,
        complete_value: 3,
        complete_reward: 5,
    }
}

fn shop() -> Vec<MerchandiseTemp> {
    vec![merch(1, 3, 1, 5, 1), merch(2, 4, 2, 2, 2), merch(3, 20, 4, 1, 1), merch(4, 1, 5, 0, 3), merch(5, 2, 3, 1, 1)]
}

fn buyer() -> BattleData {
    let mut c = cter(11, 1, 20, 1, Some(0));
    c.base_attr.atk = 1;
    c.base_attr.max_energy = 10;
    c.skills.push(skill(7, 70, 3));
    battle(vec![player(1, 1, vec![c])], vec![cell(0, 0, 0, 1)])
}

#[test]
fn find_and_could_buy() {
    let temps = shop();
    assert_eq!(find_merchandise(&temps, 2).map(|t| t.price), Some(4));
    assert_eq!(find_merchandise(&temps, 9), None);
    let bd = buyer();
    let p = &bd.battle_player[0];
    assert!(get_could_buy(p, 1, &temps));
    assert!(!get_could_buy(p, 3, &temps));
    assert!(!get_could_buy(p, 9, &temps));
    let robots = vec![RobotTemp { id: 8, merchandises: vec![3, 1, 9, 2] }];
    assert_eq!(check_buy(p, 8, &robots, &temps), vec![1, 2]);
    assert_eq!(check_buy(p, 5, &robots, &temps), Vec::<u32>::new());
}

#[test]
fn buying_pays_counts_and_acts() {
    let temps = shop();
    let missions = vec![mission_temp(40), mission_temp(41)];
    let mut bd = buyer();
    assert_eq!(handler_buy(&mut bd, 1, 2, &temps, &missions), None);
    assert_eq!(bd.battle_player[0].gold, 6);
    assert_eq!(bd.battle_player[0].merchandise_data.get_turn_buy_times(2), 1);
    assert_eq!(bd.battle_player[0].cters[0].base_attr.atk, 3);
    assert!(!get_could_buy(&bd.battle_player[0], 1, &vec![merch(1, 3, 1, 5, 0)]));
    assert_eq!(handler_buy(&mut bd, 1, 1, &temps, &missions), None);
    assert_eq!(bd.battle_player[0].gold, 3);
    assert_eq!(bd.battle_player[0].cters[0].base_attr.hp, 25);
    assert!(!get_could_buy(&bd.battle_player[0], 1, &temps));
    assert_eq!(handler_buy(&mut bd, 1, 5, &temps, &missions), None);
    assert_eq!(bd.battle_player[0].cters[0].skills[0].cd_times, 2);
    assert_eq!(bd.battle_player[0].gold, 1);
    let id = handler_buy(&mut bd, 1, 4, &temps, &missions).unwrap();
    assert!(id == 40 || id == 41);
    assert_eq!(bd.battle_player[0].gold, 0);
    assert_eq!(bd.battle_player[0].mission_data.get_last_mission(), id);
    assert_eq!(bd.battle_player[0].mission_data.history_list, vec![id]);
}

#[test]
fn energy_merchandise_caps_at_max() {
    let temps = vec![merch(3, 0, 4, 12, 1)];
    let mut bd = buyer();
    handler_buy(&mut bd, 1, 3, &temps, &vec![]);
    assert_eq!(bd.battle_player[0].cters[0].base_attr.energy, 10);
}

#[test]
fn random_mission_skips_taken_missions() {
    let missions = vec![mission_temp(40), mission_temp(41)];
    let mut bd = buyer();
    bd.battle_player[0].mission_data.history_list.push(40);
    assert_eq!(random_mission(&mut bd, 1, &missions), 41);
    assert_eq!(bd.battle_player[0].mission_data.history_list, vec![40, 41]);
    // all taken: anything but the current one
    assert_eq!(random_mission(&mut bd, 1, &missions), 40);
}
