//! How a robot picks the cell it opens: cells it can pair from memory
//! first, then an unknown cell.

use vstd::prelude::*;
use crate::battle::{BattleData, has_player, player_of, first_player, lemma_first_player_unique};
use crate::battle_cter::BattleCharacter;
use crate::battle_enum::AttackState;
use crate::battle_helper::{acting_player, current_cter_of};
use crate::battle_handler::has_buff_id;
use crate::battle_player::{BattlePlayer, RobotData, first_cter, has_cter};
use crate::buff_type::{CAN_NOT_MOVED, LOCKED};
use crate::map_data::MapCell;
use crate::robot::{RememberCell, RobotActionType, RobotStatus};
use crate::robot_skill::pick_one;

verus! {

/// Whether no buff of character `c` forbids moving it.
pub open spec fn cter_movable(c: BattleCharacter) -> bool {
    forall|i: int| 0 <= i < c.battle_buffs.buffs@.len() ==> #[trigger] c.battle_buffs.buffs@[i].function_id != CAN_NOT_MOVED
}

/// Whether player `user_id` may open cell `c`: the cell is not locked, and
/// nobody stands on it, the player does, or whoever does may be moved.
pub open spec fn can_open(bd: BattleData, user_id: u32, c: MapCell) -> bool {
    &&& !has_buff_id(c.buffs@, LOCKED)
    &&& (c.user_id == user_id || c.user_id == 0
        || cter_movable(current_cter_of(player_of(bd.battle_player@, c.user_id))))
}

/// The question `can_open` asks can be answered: where it comes to the
/// player standing on the cell, that player is in the battle and acts with
/// a character it has.
pub open spec fn open_checkable(bd: BattleData, user_id: u32, c: MapCell) -> bool {
    has_buff_id(c.buffs@, LOCKED) || c.user_id == user_id || c.user_id == 0 || acting_player(bd, c.user_id)
}

pub(crate) proof fn lemma_current_cter(p: BattlePlayer, i: int)
    requires
        first_cter(p.cters@, p.current_cter.0, i),
    ensures
        current_cter_of(p) == p.cters@[i],
{
    let k = choose|k: int| first_cter(p.cters@, p.current_cter.0, k);
    if k < i {
        assert(p.cters@[k].base_attr.cter_id != p.current_cter.0);
    } else if i < k {
        assert(p.cters@[i].base_attr.cter_id != p.current_cter.0);
    }
}

/// Whether robot `cter_id` may open `map_cell` (see `can_open`).
pub fn check_can_open(cter_id: u32, map_cell: &MapCell, battle_data: &BattleData) -> (r: bool)
    requires
        open_checkable(*battle_data, cter_id, *map_cell),
    ensures
        r == can_open(*battle_data, cter_id, *map_cell),
{
    if map_cell.check_is_locked() {
        return false;
    }
    let uid = map_cell.user_id;
    if uid == cter_id || uid == 0 {
        return true;
    }
    let p = match battle_data.get_battle_player(Some(uid), true) {
        Ok(p) => p,
        Err(_) => return false,
    };
    let c = p.get_current_cter();
    proof {
        let i = choose|i: int| first_cter(p.cters@, p.current_cter.0, i) && *c == #[trigger] p.cters@[i];
        lemma_current_cter(*p, i);
    }
    c.can_be_move()
}

/// What remembered cell `ci` (cell `c`) adds to the pairs, scanning the
/// remembered cells from `j`: its position once per other remembered cell
/// of the same kind, up to and including the first whose element is
/// `element`, which also adds the cell's own index to the second list and
/// ends the scan.
pub open spec fn matches_from(c: MapCell, ci: usize, element: u8, rem: Seq<RememberCell>, j: int) -> (Seq<usize>, Seq<usize>)
    decreases rem.len() - j,
{
    if j >= rem.len() {
        (Seq::empty(), Seq::empty())
    } else if rem[j].cell_index == ci {
        matches_from(c, ci, element, rem, j + 1)
    } else if c.id == rem[j].cell_id {
        if c.element == element {
            (seq![ci], seq![c.index])
        } else {
            let rest = matches_from(c, ci, element, rem, j + 1);
            (seq![ci] + rest.0, rest.1)
        }
    } else {
        matches_from(c, ci, element, rem, j + 1)
    }
}

/// The pairs a robot `user_id` whose character has element `element` sees
/// among the first `n` remembered cells: each remembered cell nobody has
/// opened and the robot may open adds what `matches_from` gives.
pub open spec fn pair_candidates(bd: BattleData, user_id: u32, element: u8, rem: Seq<RememberCell>, n: nat) -> (Seq<usize>, Seq<usize>)
    decreases n,
{
    if n == 0 {
        (Seq::empty(), Seq::empty())
    } else {
        let prev = pair_candidates(bd, user_id, element, rem, (n - 1) as nat);
        let ci = rem[n - 1].cell_index;
        let c = bd.tile_map.map_cells@[ci as int];
        if c.open_user > 0 || !can_open(bd, user_id, c) {
            prev
        } else {
            let m = matches_from(c, ci, element, rem, 0);
            (prev.0 + m.0, prev.1 + m.1)
        }
    }
}

/// Every remembered cell is on the map, and where nobody opened it the
/// question whether the robot may open it can be answered.
pub open spec fn memory_checkable(bd: BattleData, user_id: u32, rem: Seq<RememberCell>) -> bool {
    forall|k: int| 0 <= k < rem.len() ==> {
        let ci = #[trigger] rem[k].cell_index;
        &&& ci < bd.tile_map.map_cells@.len()
        &&& (bd.tile_map.map_cells@[ci as int].open_user == 0
            ==> open_checkable(bd, user_id, bd.tile_map.map_cells@[ci as int]))
    }
}

/// The scan of `matches_from` for one remembered cell.
fn push_matches(
    c: &MapCell,
    ci: usize,
    element: u8,
    rem: &Vec<RememberCell>,
    index_v: &mut Vec<usize>,
    element_v: &mut Vec<usize>,
)
    ensures
        final(index_v)@ == old(index_v)@ + matches_from(*c, ci, element, rem@, 0).0,
        final(element_v)@ == old(element_v)@ + matches_from(*c, ci, element, rem@, 0).1,
{
    let ghost i0 = index_v@;
    let ghost e0 = element_v@;
    let mut j: usize = 0;
    while j < rem.len()
        invariant_except_break
            j <= rem@.len(),
            i0 + matches_from(*c, ci, element, rem@, 0).0 == index_v@ + matches_from(*c, ci, element, rem@, j as int).0,
            e0 + matches_from(*c, ci, element, rem@, 0).1 == element_v@ + matches_from(*c, ci, element, rem@, j as int).1,
        ensures
            index_v@ == i0 + matches_from(*c, ci, element, rem@, 0).0,
            element_v@ == e0 + matches_from(*c, ci, element, rem@, 0).1,
        decreases rem@.len() - j,
    {
        let re = rem[j];
        if re.cell_index == ci {
            j = j + 1;
            continue;
        }
        if c.id == re.cell_id {
            let ghost before = index_v@;
            index_v.push(ci);
            proof {
                let rest = matches_from(*c, ci, element, rem@, j + 1);
                assert(before + (seq![ci] + rest.0) =~= index_v@ + rest.0);
            }
            if c.element == element {
                let ghost eb = element_v@;
                element_v.push(c.index);
                proof {
                    assert(index_v@ =~= index_v@ + Seq::<usize>::empty());
                    assert(eb + seq![c.index] =~= element_v@);
                    assert(index_v@ == before.push(ci));
                    assert(before + seq![ci] =~= before.push(ci));
                    assert(element_v@ =~= element_v@ + Seq::<usize>::empty());
                }
                break;
            }
        }
        j = j + 1;
    }
    proof {
        assert(index_v@ =~= index_v@ + Seq::<usize>::empty());
        assert(element_v@ =~= element_v@ + Seq::<usize>::empty());
    }
}

/// The cells a robot player can pair from what it remembers, and among them
/// those of its character's element (see `pair_candidates`); fails where the
/// player is no robot.
pub fn cal_pair_num(battle_data: &BattleData, battle_player: &BattlePlayer) -> (r: Result<(Vec<usize>, Vec<usize>), ()>)
    requires
        has_cter(battle_player.cters@, battle_player.current_cter.0),
        battle_player.robot_data matches Some(d) ==> memory_checkable(*battle_data, battle_player.user_id, d.remember_map_cell@),
    ensures
        match battle_player.robot_data {
            None => r is Err,
            Some(d) => r matches Ok((a, b)) && (a@, b@) == pair_candidates(*battle_data, battle_player.user_id,
                current_cter_of(*battle_player).base_attr.element, d.remember_map_cell@, d.remember_map_cell@.len()),
        },
{
    let robot_id = battle_player.get_user_id();
    let robot_data = match battle_player.get_robot_data_ref() {
        Ok(d) => d,
        Err(e) => return Err(e),
    };
    let cur = battle_player.get_current_cter();
    proof {
        let i = choose|i: int| first_cter(battle_player.cters@, battle_player.current_cter.0, i) && *cur == #[trigger] battle_player.cters@[i];
        lemma_current_cter(*battle_player, i);
    }
    let element = cur.base_attr.element;
    let remember_cells = &robot_data.remember_map_cell;
    let mut index_v: Vec<usize> = Vec::new();
    let mut element_v: Vec<usize> = Vec::new();
    let mut k: usize = 0;
    while k < remember_cells.len()
        invariant
            k <= remember_cells@.len(),
            memory_checkable(*battle_data, robot_id, remember_cells@),
            (index_v@, element_v@) == pair_candidates(*battle_data, robot_id, element, remember_cells@, k as nat),
        decreases remember_cells@.len() - k,
    {
        let cell_index = remember_cells[k].cell_index;
        let map_cell = &battle_data.tile_map.map_cells[cell_index];
        if map_cell.open_user > 0 {
            k = k + 1;
            continue;
        }
        if !check_can_open(robot_id, map_cell, battle_data) {
            k = k + 1;
            continue;
        }
        push_matches(map_cell, cell_index, element, remember_cells, &mut index_v, &mut element_v);
        k = k + 1;
    }
    Ok((index_v, element_v))
}

/// Position `idx` once per remembered cell, from the `j`-th on, that comes
/// before the first remembered cell at `idx`.
pub open spec fn remembered_before(rem: Seq<RememberCell>, idx: usize, j: int) -> Seq<usize>
    decreases rem.len() - j,
{
    if j >= rem.len() || rem[j].cell_index == idx {
        Seq::empty()
    } else {
        seq![idx] + remembered_before(rem, idx, j + 1)
    }
}

/// Whether an unpaired cell `c` is out of the robot's random choice: a
/// player who may not attack stands on it, or it is the world cell, or it
/// is locked.
pub open spec fn unknown_skipped(bd: BattleData, c: MapCell) -> bool {
    ||| (c.user_id > 0 && player_of(bd.battle_player@, c.user_id).status.attack_state != AttackState::Able)
    ||| c.is_world
    ||| has_buff_id(c.buffs@, LOCKED)
}

/// The cells, among the first `n` unpaired ones, from which a robot that
/// remembers `rem` draws one at random when it can pair none: each cell not
/// skipped, once where the robot remembers nothing, else once per
/// remembered cell before the first one at that cell.
pub open spec fn unknown_open_cells(bd: BattleData, rem: Seq<RememberCell>, n: nat) -> Seq<usize>
    decreases n,
{
    if n == 0 {
        Seq::empty()
    } else {
        let prev = unknown_open_cells(bd, rem, (n - 1) as nat);
        let idx = bd.tile_map.un_pair_map@[n - 1].0;
        let c = bd.tile_map.map_cells@[idx as int];
        if unknown_skipped(bd, c) {
            prev
        } else if rem.len() == 0 {
            prev.push(idx)
        } else {
            prev + remembered_before(rem, idx, 0)
        }
    }
}

/// Every unpaired cell is on the map, and whoever stands on one is a player.
pub open spec fn unpaired_known(bd: BattleData) -> bool {
    forall|k: int| 0 <= k < bd.tile_map.un_pair_map@.len() ==> {
        let idx = #[trigger] bd.tile_map.un_pair_map@[k].0;
        &&& idx < bd.tile_map.map_cells@.len()
        &&& (bd.tile_map.map_cells@[idx as int].user_id > 0
            ==> has_player(bd.battle_player@, bd.tile_map.map_cells@[idx as int].user_id))
    }
}

/// `out` with what `remembered_before` gives from the first remembered cell.
fn push_remembered_before(out: &mut Vec<usize>, rem: &Vec<RememberCell>, idx: usize)
    ensures
        final(out)@ == old(out)@ + remembered_before(rem@, idx, 0),
{
    let ghost start = out@;
    let mut j: usize = 0;
    while j < rem.len()
        invariant_except_break
            j <= rem@.len(),
            start + remembered_before(rem@, idx, 0) == out@ + remembered_before(rem@, idx, j as int),
        ensures
            out@ == start + remembered_before(rem@, idx, 0),
        decreases rem@.len() - j,
    {
        if rem[j].cell_index == idx {
            proof {
                assert(out@ =~= out@ + Seq::<usize>::empty());
            }
            break;
        }
        let ghost before = out@;
        out.push(idx);
        proof {
            let rest = remembered_before(rem@, idx, j + 1);
            assert(before + (seq![idx] + rest) =~= out@ + rest);
        }
        j = j + 1;
    }
    proof {
        assert(out@ =~= out@ + Seq::<usize>::empty());
    }
}

/// The cells of `unknown_open_cells` for all unpaired cells.
pub fn unknown_open_candidates(battle_data: &BattleData, rem: &Vec<RememberCell>) -> (r: Vec<usize>)
    requires
        unpaired_known(*battle_data),
    ensures
        r@ == unknown_open_cells(*battle_data, rem@, battle_data.tile_map.un_pair_map@.len()),
{
    let un = &battle_data.tile_map.un_pair_map;
    let mut v: Vec<usize> = Vec::new();
    let mut k: usize = 0;
    while k < un.len()
        invariant
            k <= un@.len(),
            un@ == battle_data.tile_map.un_pair_map@,
            unpaired_known(*battle_data),
            v@ == unknown_open_cells(*battle_data, rem@, k as nat),
        decreases un@.len() - k,
    {
        let idx = un[k].0;
        let map_cell = &battle_data.tile_map.map_cells[idx];
        let uid = map_cell.user_id;
        let mut skipped = false;
        if uid > 0 {
            let pos = crate::battle::player_position(&battle_data.battle_player, uid).unwrap();
            proof {
                lemma_first_player_unique(battle_data.battle_player@, uid, pos as int,
                    choose|q: int| first_player(battle_data.battle_player@, uid, q));
            }
            if !battle_data.battle_player[pos].is_can_attack() {
                skipped = true;
            }
        }
        if !skipped && (map_cell.is_world() || map_cell.check_is_locked()) {
            skipped = true;
        }
        if !skipped {
            if rem.len() > 0 {
                push_remembered_before(&mut v, rem, idx);
            } else {
                v.push(idx);
            }
        }
        k = k + 1;
    }
    v
}

/// A robot about to open a cell.
pub struct OpenCellRobotAction {
    pub robot_id: u32,
    pub cter_id: u32,
    pub temp_id: u32,
    pub status: RobotStatus,
}

/// What `OpenCellRobotAction::execute` may answer for robot `robot_id`.
pub open spec fn open_cell_answer(bd: BattleData, robot_id: u32, r: Option<(usize, RobotActionType)>) -> bool {
    let p = player_of(bd.battle_player@, robot_id);
    if bd.tile_map.un_pair_map@.len() == 0 || p.flow_data.residue_movement_points == 0 {
        r is None
    } else {
        match p.robot_data {
            None => r is None,
            Some(d) => {
                let rem = d.remember_map_cell@;
                let (pv, ev) = pair_candidates(bd, robot_id, current_cter_of(p).base_attr.element, rem, rem.len());
                let uv = unknown_open_cells(bd, rem, bd.tile_map.un_pair_map@.len());
                if pv.len() > 1 && ev.len() > 1 {
                    r matches Some((x, t)) && t == RobotActionType::Open && ev.contains(x)
                } else if pv.len() > 1 {
                    r matches Some((x, t)) && t == RobotActionType::Open && pv.contains(x)
                } else if pv.len() == 1 {
                    r == Some((pv[0], RobotActionType::Open))
                } else if uv.len() > 0 {
                    r matches Some((x, t)) && t == RobotActionType::Open && uv.contains(x)
                } else {
                    r == Some((0usize, RobotActionType::Skip))
                }
            },
        }
    }
}

impl OpenCellRobotAction {
    /// The cell the robot opens and the action it sends, or `None` where it
    /// does nothing (no unpaired cell, no move left, or no robot memory):
    /// a cell it can pair, preferring those of its character's element,
    /// where it can pair more than one; else an unknown cell drawn at
    /// random; else it skips. Which of several cells is drawn is left to
    /// chance (see `open_cell_answer`).
    pub fn execute(&self, battle_data: &BattleData) -> (r: Option<(usize, RobotActionType)>)
        requires
            has_player(battle_data.battle_player@, self.robot_id),
            ({
                let p = player_of(battle_data.battle_player@, self.robot_id);
                &&& has_cter(p.cters@, p.current_cter.0)
                &&& p.user_id == self.robot_id
                &&& p.robot_data matches Some(d) ==> memory_checkable(*battle_data, self.robot_id, d.remember_map_cell@)
            }),
            unpaired_known(*battle_data),
        ensures
            open_cell_answer(*battle_data, self.robot_id, r),
    {
        if battle_data.tile_map.un_pair_map.len() == 0 {
            return None;
        }
        let robot_id = self.robot_id;
        let pos = crate::battle::player_position(&battle_data.battle_player, robot_id).unwrap();
        proof {
            lemma_first_player_unique(battle_data.battle_player@, robot_id, pos as int,
                choose|q: int| first_player(battle_data.battle_player@, robot_id, q));
        }
        let battle_player = &battle_data.battle_player[pos];
        if battle_player.flow_data.residue_movement_points == 0 {
            return None;
        }
        let (pair_v, element_index) = match cal_pair_num(battle_data, battle_player) {
            Ok(res) => res,
            Err(_) => return None,
        };
        if pair_v.len() > 1 {
            if element_index.len() > 1 {
                Some((pick_one(&element_index), RobotActionType::Open))
            } else {
                Some((pick_one(&pair_v), RobotActionType::Open))
            }
        } else if pair_v.len() == 1 {
            Some((pair_v[0], RobotActionType::Open))
        } else {
            let robot_data = match &battle_player.robot_data {
                Some(d) => d,
                None => return None,
            };
            let unknown_v = unknown_open_candidates(battle_data, &robot_data.remember_map_cell);
            if unknown_v.len() > 0 {
                Some((pick_one(&unknown_v), RobotActionType::Open))
            } else {
                Some((0, RobotActionType::Skip))
            }
        }
    }
}

/// The first remembered cell, from the `j`-th on, of kind `id`.
pub open spec fn remembered_of_kind(rem: Seq<RememberCell>, id: u32, j: int) -> Option<usize>
    decreases rem.len() - j,
{
    if j >= rem.len() {
        None
    } else if rem[j].cell_id == id {
        Some(rem[j].cell_index)
    } else {
        remembered_of_kind(rem, id, j + 1)
    }
}

/// For the cells opened this turn, from the `i`-th on, the first one on the
/// map of which a remembered cell is of the same kind: where that
/// remembered cell is.
pub open spec fn pair_from_memory(cells: Seq<MapCell>, opened: Seq<usize>, rem: Seq<RememberCell>, i: int) -> Option<usize>
    decreases opened.len() - i,
{
    if i >= opened.len() {
        None
    } else if opened[i] < cells.len() && remembered_of_kind(rem, cells[opened[i] as int].id, 0) is Some {
        remembered_of_kind(rem, cells[opened[i] as int].id, 0)
    } else {
        pair_from_memory(cells, opened, rem, i + 1)
    }
}

fn find_remembered_of_kind(rem: &Vec<RememberCell>, id: u32) -> (r: Option<usize>)
    ensures
        r == remembered_of_kind(rem@, id, 0),
{
    let mut j: usize = 0;
    while j < rem.len()
        invariant
            j <= rem@.len(),
            remembered_of_kind(rem@, id, 0) == remembered_of_kind(rem@, id, j as int),
        decreases rem@.len() - j,
    {
        if rem[j].cell_id == id {
            return Some(rem[j].cell_index);
        }
        j = j + 1;
    }
    None
}

/// What `RobotData::can_pair_index` answers for the robot of `rd`.
pub open spec fn memory_pair(bd: BattleData, rd: RobotData) -> Option<usize> {
    if has_player(bd.battle_player@, rd.robot_id) {
        pair_from_memory(bd.tile_map.map_cells@,
            player_of(bd.battle_player@, rd.robot_id).flow_data.open_map_cell_vec@,
            rd.remember_map_cell@, 0)
    } else {
        None
    }
}

impl RobotData {
    /// Where a remembered cell pairs with a cell the robot opened this turn
    /// (see `pair_from_memory`); `None` where the robot is not in the battle.
    pub fn can_pair_index(&self, battle_data: &BattleData) -> (r: Option<usize>)
        ensures
            r == memory_pair(*battle_data, *self),
    {
        let pos = match crate::battle::player_position(&battle_data.battle_player, self.robot_id) {
            Some(p) => p,
            None => return None,
        };
        proof {
            lemma_first_player_unique(battle_data.battle_player@, self.robot_id, pos as int,
                choose|q: int| first_player(battle_data.battle_player@, self.robot_id, q));
        }
        let opened = &battle_data.battle_player[pos].flow_data.open_map_cell_vec;
        let cells = &battle_data.tile_map.map_cells;
        let mut i: usize = 0;
        while i < opened.len()
            invariant
                i <= opened@.len(),
                has_player(battle_data.battle_player@, self.robot_id),
                opened@ == player_of(battle_data.battle_player@, self.robot_id).flow_data.open_map_cell_vec@,
                cells@ == battle_data.tile_map.map_cells@,
                pair_from_memory(cells@, opened@, self.remember_map_cell@, 0)
                    == pair_from_memory(cells@, opened@, self.remember_map_cell@, i as int),
            decreases opened@.len() - i,
        {
            let open_index = opened[i];
            if open_index < cells.len() {
                let res = find_remembered_of_kind(&self.remember_map_cell, cells[open_index].id);
                if res.is_some() {
                    assert(opened@[i as int] == open_index);
                    assert(cells@[open_index as int].id == cells[open_index as int].id);
                    return res;
                }
            }
            i = i + 1;
        }
        None
    }
}

} // verus!
