use battleserver::battle::BattleData;
use battleserver::battle_buff::{Buff, BuffTemp};
use battleserver::battle_cter::{BaseAttr, BattleBuff, BattleCharacter};
use battleserver::battle_enum::{BattleCterState, BattlePlayerState};
use battleserver::battle_player::{BattlePlayer, BattleStatus, IndexData, MerchandiseData, TurnFlowData};
use battleserver::battle_skill::{Skill, SkillTemp};
use battleserver::map_data::{MapCell, MapCellType};
use battleserver::mgr::League;
use battleserver::mission::MissionData;
use battleserver::room::RoomType;

fn skill_temp(id: u32, function_id: u32, cd: i8) -> SkillTemp {
    SkillTemp {
        id,
        function_id,
        cd,
        consume_type: 0,
        consume_value: 0,
        skill_judge: 0,
        target: 0,
        scope: 0,
        par1: 0,
        par2: 0,
        view_target: 0,
    }
}

fn skill(id: u32, function_id: u32, cd_times: i8) -> Skill {
    Skill { id, function_id, skill_temp: skill_temp(id, function_id, 3), cd_times, is_active: false }
}

fn cter(cter_id: u32, user_id: u32, hp: i16, team_id: u8, index: Option<usize>) -> BattleCharacter {
    let mut base_attr = BaseAttr::new();
    base_attr.cter_id = cter_id;
    base_attr.user_id = user_id;
    base_attr.hp = hp;
    base_attr.team_id = team_id;
    BattleCharacter {
        base_attr,
        battle_buffs: BattleBuff::new(),
        index_data: IndexData { map_cell_index: index, last_map_cell_index: None },
        state: if hp > 0 { BattleCterState::Alive } else { BattleCterState::Died },
        revenge_user_id: 0,
        skills: Vec::new(),
        items: Vec::new(),
        self_transform_cter: None,
        self_cter: None,
        owner: None,
        minons: Vec::new(),
        is_major: true,
    }
}

fn player(user_id: u32, team_id: u8, cters: Vec<BattleCharacter>) -> BattlePlayer {
    let first = cters.first().map(|c| c.base_attr.cter_id).unwrap_or(0);
    BattlePlayer {
        user_id,
        name: format!("p{}", user_id),
        gold: 10,
        grade: 1,
        league: League { score: 0, league_time: 0, league_id: 0 },
        mission_data: MissionData::new(),
        merchandise_data: MerchandiseData::new(),
        cters,
        major_cter: (first, 0),
        current_cter: (first, 0),
        flow_data: TurnFlowData::new(),
        status: BattleStatus::new(),
        robot_data: None,
        team_id,
    }
}

fn cell(index: usize, x: isize, y: isize, user_id: u32) -> MapCell {
    MapCell {
        id: 100 + index as u32,
        index,
        cell_type: MapCellType::Valid,
        buffs: Vec::new(),
        is_world: false,
        element: 0,
        passive_buffs: Vec::new(),
        user_id,
        open_user: 0,
        pair_index: None,
        x,
        y,
    }
}

fn battle(players: Vec<BattlePlayer>, cells: Vec<MapCell>) -> BattleData {
    let mut bd = BattleData::new(RoomType::OneVOneVOneVOneCustom);
    bd.battle_player = players;
    bd.tile_map.map_cells = cells;
    bd
}

fn buff_temp(id: u32, function_id: u32, trigger_times: i8, keep_time: i8) -> BuffTemp {
    BuffTemp { id, function_id, trigger_times, keep_time, par1: 0, par2: 0, scope: 0 }
}

fn buff(id: u32) -> Buff {
    Buff::new(buff_temp(id, id, 1, 0), Vec::new(), None, None, None)
}

fn dead(mut p: BattlePlayer) -> BattlePlayer {
    p.status.battle_state = BattlePlayerState::Died;
    p
}
use battleserver::battle::BattleError;

fn movers() -> BattleData {
    let cells = vec![cell(0, 0, 0, 1), cell(1, 1, 0, 2)];
    let players = vec![player(1, 1, vec![cter(11, 1, 20, 1, Some(0))]), player(2, 2, vec![cter(21, 2, 30, 2, Some(1))])];
    battle(players, cells)
}

#[test]
fn moving_a_character_that_may_not_be_moved() {
    let mut bd = movers();
    assert_eq!(bd.before_moved_trigger(1, 2), Ok(()));
    bd.battle_player[1].cters[0].battle_buffs.buffs.push(Buff::new(buff_temp(30, 10002, 1, 0), Vec::new(), None, None, None));
    assert_eq!(bd.before_moved_trigger(1, 2), Err(BattleError::CanNotMove(2)));
    assert_eq!(bd.before_moved_trigger(2, 2), Ok(()));
}

#[test]
fn using_a_skill_while_locked() {
    let mut bd = movers();
    assert_eq!(bd.before_use_skill_trigger(1), Ok(()));
    assert_eq!(bd.before_use_skill_trigger(9), Err(BattleError::NoPlayer(9)));
    bd.battle_player[0].cters[0].battle_buffs.buffs.push(buff(3));
    bd.battle_player[0].cters[0].battle_buffs.buffs.push(Buff::new(buff_temp(31, 11, 1, 0), Vec::new(), None, None, None));
    assert_eq!(bd.before_use_skill_trigger(1), Err(BattleError::SkillLocked(31)));
    bd.battle_player[1] = dead(player(2, 2, vec![cter(21, 2, 30, 2, Some(1))]));
    assert_eq!(bd.before_use_skill_trigger(2), Err(BattleError::PlayerDied(2)));
}

#[test]
fn map_refresh_lets_the_locking_skills_go() {
    let mut bd = movers();
    let mut s = skill(7, 7, 0);
    s.is_active = true;
    let mut other = skill(8, 8, 0);
    other.is_active = true;
    bd.battle_player[1].cters[0].skills = vec![s, other];
    // a lock cast by skill 7 of character 21, a lock of no character, and another kind of buff
    bd.tile_map.map_cells[0].buffs.push(Buff::new(buff_temp(60, 6, 1, 0), Vec::new(), None, Some(21), Some(7)));
    bd.tile_map.map_cells[1].buffs.push(Buff::new(buff_temp(61, 6, 1, 0), Vec::new(), None, None, None));
    bd.tile_map.map_cells[1].buffs.push(Buff::new(buff_temp(62, 9, 1, 0), Vec::new(), None, Some(21), Some(8)));
    bd.before_map_refresh_buff_trigger();
    assert!(!bd.battle_player[1].cters[0].skills[0].is_active);
    assert!(bd.battle_player[1].cters[0].skills[1].is_active);
    assert_eq!(bd.tile_map.map_cells[0].buffs.len(), 1);
}

#[test]
fn attacked_buffs_give_energy_and_cut_cooldowns() {
    let mut bd = movers();
    {
        let c = &mut bd.battle_player[0].cters[0];
        c.base_attr.max_energy = 10;
        c.base_attr.energy = 9;
        c.skills = vec![skill(7, 7, 3)];
        let mut energy = buff_temp(70, 10004, 1, 0);
        energy.par1 = 4;
        let mut cd = buff_temp(71, 15, 1, 0);
        cd.par1 = 2;
        c.battle_buffs.buffs.push(Buff::new(energy, Vec::new(), None, None, None));
        c.battle_buffs.buffs.push(Buff::new(cd, Vec::new(), None, None, None));
    }
    let mut tp = bd.new_target_pt(1).unwrap();
    bd.attacked_after_trigger(1, &mut tp);
    assert_eq!(bd.battle_player[0].cters[0].base_attr.energy, 10);
    assert_eq!(bd.battle_player[0].cters[0].skills[0].cd_times, 1);
    assert_eq!(tp.passive_effect.len(), 2);
    assert_eq!((tp.passive_effect[0].field_type, tp.passive_effect[0].value, tp.passive_effect[0].buff_id), (8, 4, 70));
    assert_eq!((tp.passive_effect[1].field_type, tp.passive_effect[1].value, tp.passive_effect[1].buff_id), (5, 2, 71));
    let mut tp2 = bd.new_target_pt(2).unwrap();
    bd.attacked_after_trigger(9, &mut tp2);
    bd.attacked_after_trigger(2, &mut tp2);
    assert!(tp2.passive_effect.is_empty());
}
