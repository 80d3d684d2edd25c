//! What skills do to the map: moving cells around and showing them.

use vstd::prelude::*;
use crate::battle::{BattleData, has_player, lookup_error, player_of, wanted_user};
use crate::battle_skill::{Skill, SkillTemp, clamped_cd};
use crate::skill_type::{SHOW_ALL_USERS_CELL, SHOW_INDEX_SAME_ELEMENT, SHOW_SAME_ELMENT_CELL_ALL_AND_CURE};
use crate::battle_player::{BattlePlayer, BattleStatus};
use crate::battle_cter::{BaseAttr, BattleCharacter, energy_after};
use crate::battle::first_player;
use crate::battle_enum::{BattleCterState, ElementType, TargetType};
use crate::outside::random_index;
use crate::battle_buff::{Buff, BuffTemp, Direction, new_buff};
use crate::battle_cter::contains_u32;
use crate::battle_enum::{ActionType, EffectType};
use crate::battle_helper::{ActionUnitPt, ChoiceFlags, EffectPt, TargetPt, build_action_unit_pt, choice_error};
use crate::battle_handler::{buff_position, first_buff_with_id, first_skill_with_id, has_buff_id, has_skill_id, skill_position};
use crate::battle_player::first_cter;
use crate::battle::player_alive;
use crate::battle_cter::{cter_buff_added, stack_can_grow};
use crate::skill_type::{HURT_SELF_ADD_BUFF, SUB_MAX_MOVE_POINT};
use crate::buff_type::{LOCKED, TRAPS};
use crate::map_data::{MapCell, MapCellType, TileMap};

verus! {

/// The checks both cells of a swap must pass: closed, not paired, not the
/// world cell, no player on it.
pub open spec fn swap_checks() -> ChoiceFlags {
    (false, true, true, true, false, true)
}

/// The users who can see the traps among `buffs`, trap after trap (a user
/// occurs once for each trap it can see).
pub open spec fn trap_viewers(buffs: Seq<Buff>) -> Seq<u32>
    decreases buffs.len(),
{
    if buffs.len() == 0 {
        Seq::empty()
    } else {
        let last = buffs.last();
        trap_viewers(buffs.drop_last()) + if TRAPS@.contains(last.function_id) {
            last.trap_view_users@
        } else {
            Seq::<u32>::empty()
        }
    }
}

/// How often `u` occurs in `s`.
pub open spec fn count_in(s: Seq<u32>, u: u32) -> nat
    decreases s.len(),
{
    if s.len() == 0 {
        0
    } else {
        count_in(s.drop_last(), u) + if s.last() == u { 1nat } else { 0nat }
    }
}

/// `tp` tells that the cell at `from` went to `to`.
pub open spec fn swap_notice(tp: TargetPt, from: u32, to: u32) -> bool {
    &&& tp.target_value@ == seq![from]
    &&& tp.effects@ == seq![EffectPt { effect_type: EffectType::ChangeCellIndex.code() as u32, effect_value: to }]
    &&& tp.passive_effect@.len() == 0
    &&& tp.add_buffs@.len() == 0
}

/// An action of nobody, of no kind, with value 0.
pub open spec fn plain_unit(au: ActionUnitPt) -> bool {
    &&& au.from_user == 0
    &&& au.action_type == ActionType::Invalid.code()
    &&& au.action_value@ == seq![0u32]
}

/// `r` holds, for each user in `viewers` once, an action with one notice
/// `from` → `to` for each time the user occurs there.
pub open spec fn grouped_notices(r: Seq<(u32, ActionUnitPt)>, viewers: Seq<u32>, from: u32, to: u32) -> bool {
    &&& forall|k: int| 0 <= k < r.len() ==> {
        &&& plain_unit(#[trigger] r[k].1)
        &&& r[k].1.targets@.len() == count_in(viewers, r[k].0)
        &&& forall|m: int| 0 <= m < r[k].1.targets@.len() ==> swap_notice(#[trigger] r[k].1.targets@[m], from, to)
    }
    &&& forall|k1: int, k2: int| 0 <= k1 < k2 < r.len() ==> #[trigger] r[k1].0 != #[trigger] r[k2].0
    &&& forall|u: u32| viewers.contains(u) <==> exists|k: int| 0 <= k < r.len() && #[trigger] r[k].0 == u
}

/// The cells after the cells at `s` and `t` changed places: each takes the
/// other's content and keeps its position, its coordinates and its player.
pub open spec fn cells_swapped(c0: Seq<MapCell>, s: int, t: int) -> Seq<MapCell> {
    c0.update(s, MapCell { index: s as usize, x: c0[s].x, y: c0[s].y, user_id: c0[s].user_id, ..c0[t] })
        .update(t, MapCell { index: t as usize, x: c0[t].x, y: c0[t].y, user_id: c0[t].user_id, ..c0[s] })
}

/// What the clients are told of a swap of the cells at `s` and `t`: where
/// one of them is locked, everybody (user 0) sees that cell move; else the
/// users who can see the traps of the cell at `s` see it move.
pub open spec fn swap_told(cells: Seq<MapCell>, s: int, t: int, r: Seq<(u32, ActionUnitPt)>) -> bool {
    if has_buff_id(cells[s].buffs@, LOCKED) {
        grouped_notices(r, seq![0u32], s as u32, t as u32)
    } else if has_buff_id(cells[t].buffs@, LOCKED) {
        grouped_notices(r, seq![0u32], t as u32, s as u32)
    } else {
        grouped_notices(r, trap_viewers(cells[s].buffs@), s as u32, t as u32)
    }
}

/// A notice that the cell at `from` went to `to`.
fn new_swap_notice(from: u32, to: u32) -> (r: TargetPt)
    ensures
        swap_notice(r, from, to),
{
    let mut tp = TargetPt { target_value: Vec::new(), effects: Vec::new(), passive_effect: Vec::new(), add_buffs: Vec::new() };
    tp.target_value.push(from);
    tp.effects.push(EffectPt { effect_type: EffectType::ChangeCellIndex.into_u32(), effect_value: to });
    assert(tp.target_value@ =~= seq![from]);
    assert(tp.effects@ =~= seq![EffectPt { effect_type: EffectType::ChangeCellIndex.code() as u32, effect_value: to }]);
    tp
}

proof fn lemma_trap_viewers_step(buffs: Seq<Buff>, i: int)
    requires
        0 <= i < buffs.len(),
    ensures
        trap_viewers(buffs.take(i + 1)) == trap_viewers(buffs.take(i)) + if TRAPS@.contains(buffs[i].function_id) {
            buffs[i].trap_view_users@
        } else {
            Seq::<u32>::empty()
        },
{
    assert(buffs.take(i + 1).drop_last() =~= buffs.take(i));
}

proof fn lemma_count_push(s: Seq<u32>, x: u32, u: u32)
    ensures
        count_in(s.push(x), u) == count_in(s, u) + if x == u { 1nat } else { 0nat },
{
    assert(s.push(x).drop_last() =~= s);
}

proof fn lemma_count_zero(s: Seq<u32>, u: u32)
    requires
        !s.contains(u),
    ensures
        count_in(s, u) == 0,
    decreases s.len(),
{
    if s.len() > 0 {
        assert(!s.drop_last().contains(u)) by {
            if s.drop_last().contains(u) {
                let j = choose|j: int| 0 <= j < s.drop_last().len() && s.drop_last()[j] == u;
                assert(s[j] == u);
            }
        }
        lemma_count_zero(s.drop_last(), u);
        assert(s[s.len() - 1] != u);
    }
}

/// The users who can see the traps among `buffs`, trap after trap.
fn collect_trap_viewers(buffs: &Vec<Buff>) -> (r: Vec<u32>)
    ensures
        r@ == trap_viewers(buffs@),
{
    let mut out: Vec<u32> = Vec::new();
    let mut i: usize = 0;
    while i < buffs.len()
        invariant
            i <= buffs@.len(),
            out@ == trap_viewers(buffs@.take(i as int)),
        decreases buffs.len() - i,
    {
        proof {
            lemma_trap_viewers_step(buffs@, i as int);
        }
        if contains_u32(&TRAPS, buffs[i].function_id) {
            let views = &buffs[i].trap_view_users;
            let ghost before = out@;
            let mut j: usize = 0;
            while j < views.len()
                invariant
                    j <= views@.len(),
                    out@ == before + views@.take(j as int),
                decreases views.len() - j,
            {
                out.push(views[j]);
                proof {
                    assert(views@.take(j + 1) =~= views@.take(j as int).push(views@[j as int]));
                }
                j = j + 1;
            }
            proof {
                assert(views@.take(views@.len() as int) =~= views@);
            }
        } else {
            proof {
                assert(out@ =~= out@ + Seq::<u32>::empty());
            }
        }
        i = i + 1;
    }
    proof {
        assert(buffs@.take(buffs@.len() as int) =~= buffs@);
    }
    out
}

/// The users of `viewers`, each once, in the order they first occur.
fn distinct_users(viewers: &Vec<u32>) -> (r: Vec<u32>)
    ensures
        forall|k1: int, k2: int| 0 <= k1 < k2 < r@.len() ==> #[trigger] r@[k1] != #[trigger] r@[k2],
        forall|u: u32| viewers@.contains(u) <==> r@.contains(u),
{
    let mut out: Vec<u32> = Vec::new();
    let mut i: usize = 0;
    while i < viewers.len()
        invariant
            i <= viewers@.len(),
            forall|k1: int, k2: int| 0 <= k1 < k2 < out@.len() ==> #[trigger] out@[k1] != #[trigger] out@[k2],
            forall|u: u32| viewers@.take(i as int).contains(u) <==> out@.contains(u),
        decreases viewers.len() - i,
    {
        let u = viewers[i];
        let ghost old_out = out@;
        if !contains_u32(out.as_slice(), u) {
            out.push(u);
        }
        proof {
            let p0 = viewers@.take(i as int);
            let p1 = viewers@.take(i + 1);
            assert(p1 =~= p0.push(u));
            assert forall|w: u32| p1.contains(w) <==> out@.contains(w) by {
                if p1.contains(w) {
                    let j = choose|j: int| 0 <= j < p1.len() && #[trigger] p1[j] == w;
                    if j < i {
                        assert(p0[j] == w);
                        assert(old_out.contains(w));
                        let q = choose|q: int| 0 <= q < old_out.len() && #[trigger] old_out[q] == w;
                        assert(out@[q] == w);
                    } else if old_out.contains(w) {
                        let q = choose|q: int| 0 <= q < old_out.len() && #[trigger] old_out[q] == w;
                        assert(out@[q] == w);
                    } else {
                        assert(out@[out@.len() - 1] == w);
                    }
                }
                if out@.contains(w) {
                    let q = choose|q: int| 0 <= q < out@.len() && #[trigger] out@[q] == w;
                    if q < old_out.len() {
                        assert(old_out[q] == w);
                        assert(old_out.contains(w));
                        assert(p0.contains(w));
                        let j = choose|j: int| 0 <= j < p0.len() && #[trigger] p0[j] == w;
                        assert(p1[j] == w);
                    } else {
                        assert(p1[i as int] == w);
                    }
                }
            }
        }
        i = i + 1;
    }
    proof {
        assert(viewers@.take(viewers@.len() as int) =~= viewers@);
    }
    out
}

/// How often `u` occurs in `s`.
fn count_user(s: &Vec<u32>, u: u32) -> (r: usize)
    ensures
        r == count_in(s@, u),
{
    let mut n: usize = 0;
    let mut i: usize = 0;
    while i < s.len()
        invariant
            i <= s@.len(),
            n == count_in(s@.take(i as int), u),
            n <= i,
        decreases s.len() - i,
    {
        proof {
            assert(s@.take(i + 1) =~= s@.take(i as int).push(s@[i as int]));
            lemma_count_push(s@.take(i as int), s@[i as int], u);
        }
        if s[i] == u {
            n = n + 1;
        }
        i = i + 1;
    }
    proof {
        assert(s@.take(s@.len() as int) =~= s@);
    }
    n
}

/// For each user of `viewers` once, an action with one notice `from` → `to`
/// for each time the user occurs there.
fn group_notices(viewers: &Vec<u32>, from: u32, to: u32) -> (r: Vec<(u32, ActionUnitPt)>)
    ensures
        grouped_notices(r@, viewers@, from, to),
{
    let users = distinct_users(viewers);
    let mut out: Vec<(u32, ActionUnitPt)> = Vec::new();
    let mut k: usize = 0;
    while k < users.len()
        invariant
            k <= users@.len(),
            out@.len() == k,
            forall|k1: int, k2: int| 0 <= k1 < k2 < users@.len() ==> #[trigger] users@[k1] != #[trigger] users@[k2],
            forall|u: u32| viewers@.contains(u) <==> users@.contains(u),
            forall|q: int| 0 <= q < k ==> (#[trigger] out@[q]).0 == users@[q],
            forall|q: int| 0 <= q < k ==> {
                &&& plain_unit(#[trigger] out@[q].1)
                &&& out@[q].1.targets@.len() == count_in(viewers@, out@[q].0)
                &&& forall|m: int| 0 <= m < out@[q].1.targets@.len() ==> swap_notice(#[trigger] out@[q].1.targets@[m], from, to)
            },
        decreases users.len() - k,
    {
        let u = users[k];
        let c = count_user(viewers, u);
        let mut au = build_action_unit_pt(0, ActionType::Invalid, 0);
        let mut m: usize = 0;
        while m < c
            invariant
                m <= c,
                au.targets@.len() == m,
                plain_unit(au),
                forall|j: int| 0 <= j < m ==> swap_notice(#[trigger] au.targets@[j], from, to),
            decreases c - m,
        {
            au.targets.push(new_swap_notice(from, to));
            m = m + 1;
        }
        out.push((u, au));
        k = k + 1;
    }
    proof {
        assert forall|u: u32| viewers@.contains(u) <==> exists|q: int| 0 <= q < out@.len() && #[trigger] out@[q].0 == u by {
            if viewers@.contains(u) {
                let q = choose|q: int| 0 <= q < users@.len() && users@[q] == u;
                assert(out@[q].0 == u);
            }
            if exists|q: int| 0 <= q < out@.len() && #[trigger] out@[q].0 == u {
                let q = choose|q: int| 0 <= q < out@.len() && #[trigger] out@[q].0 == u;
                assert(users@[q] == u);
                assert(users@.contains(u));
            }
        }
        assert forall|k1: int, k2: int| 0 <= k1 < k2 < out@.len() implies #[trigger] out@[k1].0 != #[trigger] out@[k2].0 by {
            assert(users@[k1] != users@[k2]);
        }
    }
    out
}

/// A cell standing for none, to hold a place while two cells change places.
fn placeholder_cell() -> (r: MapCell)
    ensures
        r.id == 0 && r.index == 0 && r.cell_type == MapCellType::InValid && r.buffs@.len() == 0,
        !r.is_world && r.element == 0 && r.passive_buffs@.len() == 0,
        r.user_id == 0 && r.open_user == 0 && r.pair_index is None && r.x == 0 && r.y == 0,
{
    MapCell {
        id: 0,
        index: 0,
        cell_type: MapCellType::InValid,
        buffs: Vec::new(),
        is_world: false,
        element: 0,
        passive_buffs: Vec::new(),
        user_id: 0,
        open_user: 0,
        pair_index: None,
        x: 0,
        y: 0,
    }
}

/// The skill that makes two cells change places: the first two entries of
/// `target_array` name the cells, each of which must pass the checks of
/// `swap_checks` (no player on it, closed, not paired, not the world cell).
/// On success the cells change places (see `cells_swapped`) and the result
/// tells the clients who may see it (see `swap_told`). Anything else leaves
/// the battle unchanged and gives `None`.
pub fn change_map_cell_index(
    battle_data: &mut BattleData,
    cter_id: u32,
    skill_id: u32,
    target_array: Vec<u32>,
    au: &mut ActionUnitPt,
) -> (r: Option<Vec<(u32, ActionUnitPt)>>)
    ensures
        *final(au) == *old(au),
        r is None <==> (target_array@.len() < 2
            || choice_error(old(battle_data).tile_map.map_cells@, target_array@[0] as int, swap_checks()) is Some
            || choice_error(old(battle_data).tile_map.map_cells@, target_array@[1] as int, swap_checks()) is Some),
        r is None ==> *final(battle_data) == *old(battle_data),
        r matches Some(v) ==> {
            let s = target_array@[0] as int;
            let t = target_array@[1] as int;
            &&& final(battle_data).tile_map.map_cells@ == cells_swapped(old(battle_data).tile_map.map_cells@, s, t)
            &&& final(battle_data).tile_map.map_cells@.len() == old(battle_data).tile_map.map_cells@.len()
            &&& *final(battle_data) == (BattleData {
                tile_map: TileMap { map_cells: final(battle_data).tile_map.map_cells, ..old(battle_data).tile_map },
                ..*old(battle_data)
            })
            &&& swap_told(old(battle_data).tile_map.map_cells@, s, t, v@)
        },
{
    if target_array.len() < 2 {
        return None;
    }
    let source_index = target_array[0] as usize;
    let target_index = target_array[1] as usize;
    match battle_data.check_choice_index(source_index, false, true, true, true, false, true) {
        Err(_) => return None,
        Ok(_) => {},
    }
    match battle_data.check_choice_index(target_index, false, true, true, true, false, true) {
        Err(_) => return None,
        Ok(_) => {},
    }
    let ghost c0 = battle_data.tile_map.map_cells@;
    let s_x = battle_data.tile_map.map_cells[source_index].x;
    let s_y = battle_data.tile_map.map_cells[source_index].y;
    let source_user = battle_data.tile_map.map_cells[source_index].user_id;
    let t_x = battle_data.tile_map.map_cells[target_index].x;
    let t_y = battle_data.tile_map.map_cells[target_index].y;
    let target_user = battle_data.tile_map.map_cells[target_index].user_id;
    let source_locked = battle_data.tile_map.map_cells[source_index].check_is_locked();
    let target_locked = battle_data.tile_map.map_cells[target_index].check_is_locked();

    let au_vec = if source_locked || target_locked {
        let mut only_all: Vec<u32> = Vec::new();
        only_all.push(0);
        assert(only_all@ =~= seq![0u32]);
        if source_locked {
            group_notices(&only_all, source_index as u32, target_index as u32)
        } else {
            group_notices(&only_all, target_index as u32, source_index as u32)
        }
    } else {
        let viewers = collect_trap_viewers(&battle_data.tile_map.map_cells[source_index].buffs);
        group_notices(&viewers, source_index as u32, target_index as u32)
    };

    if source_index != target_index {
        let mut tmp = placeholder_cell();
        std::mem::swap(&mut battle_data.tile_map.map_cells[source_index], &mut tmp);
        std::mem::swap(&mut battle_data.tile_map.map_cells[target_index], &mut tmp);
        std::mem::swap(&mut battle_data.tile_map.map_cells[source_index], &mut tmp);
    }
    battle_data.tile_map.map_cells[source_index].index = source_index;
    battle_data.tile_map.map_cells[source_index].x = s_x;
    battle_data.tile_map.map_cells[source_index].y = s_y;
    battle_data.tile_map.map_cells[target_index].index = target_index;
    battle_data.tile_map.map_cells[target_index].x = t_x;
    battle_data.tile_map.map_cells[target_index].y = t_y;
    battle_data.tile_map.map_cells[source_index].user_id = source_user;
    battle_data.tile_map.map_cells[target_index].user_id = target_user;
    proof {
        assert(battle_data.tile_map.map_cells@ =~= cells_swapped(c0, source_index as int, target_index as int));
    }
    Some(au_vec)
}

/// The checks of the cell a same-element showing starts from: opened, not
/// the world cell.
pub open spec fn shown_from_checks() -> ChoiceFlags {
    (true, false, false, true, false, false)
}

/// The positions, in map order, of the first `n` cells of `all` that a
/// same-element showing picks: those whose position passes the checks of
/// `swap_checks` and whose element is `element`.
pub open spec fn same_element_shown(all: Seq<MapCell>, element: u8, n: nat) -> Seq<u32>
    decreases n,
{
    if n == 0 {
        Seq::empty()
    } else {
        let c = all[n - 1];
        same_element_shown(all, element, (n - 1) as nat) + if choice_error(all, c.index as int, swap_checks()) is None
            && c.element == element {
            seq![c.index as u32]
        } else {
            Seq::<u32>::empty()
        }
    }
}

/// Whether a same-element showing from cell `index` may go ahead: the cell
/// passes the checks of `shown_from_checks`, the player of the turn is in
/// the battle, and the cell is paired or was opened by that player in
/// this turn.
pub open spec fn show_index_allowed(bd: BattleData, index: int) -> bool {
    let cells = bd.tile_map.map_cells@;
    let uid = wanted_user(bd, None);
    &&& choice_error(cells, index, shown_from_checks()) is None
    &&& bd.next_turn_index < 4
    &&& lookup_error(bd.battle_player@, uid, true) is None
    &&& (player_of(bd.battle_player@, uid).flow_data.open_map_cell_vec_history@.contains(index as usize)
        || cells[index].pair_index is Some)
}

/// `tp` shows the cell at `v` and nothing more.
pub open spec fn cell_shown(tp: TargetPt, v: u32) -> bool {
    &&& tp.target_value@ == seq![v]
    &&& tp.effects@.len() == 0
    &&& tp.passive_effect@.len() == 0
    &&& tp.add_buffs@.len() == 0
}

/// `au1` is `au0` with one target more for each cell in `shown`.
pub open spec fn targets_added(au0: ActionUnitPt, au1: ActionUnitPt, shown: Seq<u32>) -> bool {
    &&& au1.from_user == au0.from_user
    &&& au1.action_type == au0.action_type
    &&& au1.action_value == au0.action_value
    &&& au1.targets@.len() == au0.targets@.len() + shown.len()
    &&& forall|k: int| 0 <= k < au0.targets@.len() ==> #[trigger] au1.targets@[k] == au0.targets@[k]
    &&& forall|k: int| 0 <= k < shown.len() ==> cell_shown(#[trigger] au1.targets@[au0.targets@.len() + k], shown[k])
}

/// Whether `x` occurs in `v`.
fn contains_index(v: &Vec<usize>, x: usize) -> (r: bool)
    ensures
        r == v@.contains(x),
{
    let mut i: usize = 0;
    while i < v.len()
        invariant
            i <= v@.len(),
            forall|j: int| 0 <= j < i ==> v@[j] != x,
        decreases v.len() - i,
    {
        if v[i] == x {
            assert(v@[i as int] == x);
            return true;
        }
        i = i + 1;
    }
    false
}

/// A target showing the cell at `v`.
fn new_cell_shown(v: u32) -> (r: TargetPt)
    ensures
        cell_shown(r, v),
{
    let mut tp = TargetPt { target_value: Vec::new(), effects: Vec::new(), passive_effect: Vec::new(), add_buffs: Vec::new() };
    tp.target_value.push(v);
    assert(tp.target_value@ =~= seq![v]);
    tp
}

/// The skill that shows cells of one element (`skill_temp` is the skill's
/// configuration): with the function `SHOW_INDEX_SAME_ELEMENT`, where the
/// showing is allowed (see `show_index_allowed`) from the cell named first
/// in `target_array`, every cell that passes the checks of `swap_checks`
/// and has the element of that cell is added to `au` as a target, in map
/// order (see `same_element_shown`). Nothing else changes, and nothing is
/// returned.
pub fn show_index(
    battle_data: &mut BattleData,
    cter_id: u32,
    skill_temp: &SkillTemp,
    target_array: Vec<u32>,
    au: &mut ActionUnitPt,
) -> (r: Option<Vec<(u32, ActionUnitPt)>>)
    requires
        skill_temp.function_id == SHOW_INDEX_SAME_ELEMENT ==> target_array@.len() >= 1,
    ensures
        r is None,
        *final(battle_data) == *old(battle_data),
        ({
            let bd = *old(battle_data);
            let cells = bd.tile_map.map_cells@;
            if skill_temp.function_id == SHOW_INDEX_SAME_ELEMENT && show_index_allowed(bd, target_array@[0] as int) {
                targets_added(*old(au), *final(au),
                    same_element_shown(cells, cells[target_array@[0] as int].element, cells.len()))
            } else {
                *final(au) == *old(au)
            }
        }),
{
    if skill_temp.function_id != SHOW_INDEX_SAME_ELEMENT {
        return None;
    }
    let index = target_array[0] as usize;
    match battle_data.check_choice_index(index, true, false, false, true, false, false) {
        Err(_) => return None,
        Ok(_) => {},
    }
    let bd: &BattleData = battle_data;
    let battle_player = match bd.get_battle_player(None, true) {
        Err(_) => return None,
        Ok(p) => p,
    };
    let cells = &bd.tile_map.map_cells;
    if !contains_index(&battle_player.flow_data.open_map_cell_vec_history, index) && cells[index].pair_index.is_none() {
        return None;
    }
    let element = cells[index].element;
    let ghost shown = same_element_shown(cells@, element, cells@.len());
    let ghost au0 = *au;
    let mut i: usize = 0;
    while i < cells.len()
        invariant
            i <= cells@.len(),
            cells@ == bd.tile_map.map_cells@,
            bd.tile_map.map_cells@ == old(battle_data).tile_map.map_cells@,
            targets_added(au0, *au, same_element_shown(cells@, element, i as nat)),
        decreases cells.len() - i,
    {
        let c = &cells[i];
        let ghost before = same_element_shown(cells@, element, i as nat);
        let ok = match bd.check_choice_index(c.index, false, true, true, true, false, true) {
            Err(_) => false,
            Ok(_) => true,
        };
        if ok && c.element == element {
            au.targets.push(new_cell_shown(c.index as u32));
            proof {
                assert(same_element_shown(cells@, element, (i + 1) as nat) =~= before.push(c.index as u32));
            }
        } else {
            proof {
                assert(same_element_shown(cells@, element, (i + 1) as nat) =~= before);
            }
        }
        i = i + 1;
    }
    None
}

/// Character `j` of player `i` is the first character with id `cter_id`,
/// player by player.
pub open spec fn first_cter_at(ps: Seq<BattlePlayer>, cter_id: u32, i: int, j: int) -> bool {
    &&& 0 <= i < ps.len()
    &&& 0 <= j < ps[i].cters@.len()
    &&& ps[i].cters@[j].base_attr.cter_id == cter_id
    &&& forall|a: int, b: int| 0 <= a < i && 0 <= b < ps[a].cters@.len() ==> #[trigger] ps[a].cters@[b].base_attr.cter_id != cter_id
    &&& forall|b: int| 0 <= b < j ==> #[trigger] ps[i].cters@[b].base_attr.cter_id != cter_id
}

/// Whether some player has a character with id `cter_id`.
pub open spec fn cter_found(ps: Seq<BattlePlayer>, cter_id: u32) -> bool {
    exists|i: int, j: int| #[trigger] first_cter_at(ps, cter_id, i, j)
}

/// Where the first character with id `cter_id` is: (player, character).
pub open spec fn cter_loc(ps: Seq<BattlePlayer>, cter_id: u32) -> (int, int) {
    choose|i: int, j: int| #[trigger] first_cter_at(ps, cter_id, i, j)
}

/// The first character with id `cter_id`.
pub open spec fn cter_at_loc(ps: Seq<BattlePlayer>, cter_id: u32) -> BattleCharacter {
    ps[cter_loc(ps, cter_id).0].cters@[cter_loc(ps, cter_id).1]
}

pub(crate) proof fn lemma_first_cter_at_unique(ps: Seq<BattlePlayer>, cter_id: u32, i: int, j: int, a: int, b: int)
    requires
        first_cter_at(ps, cter_id, i, j),
        first_cter_at(ps, cter_id, a, b),
    ensures
        i == a && j == b,
{
    if i < a {
        assert(ps[i].cters@[j].base_attr.cter_id != cter_id);
    } else if a < i {
        assert(ps[a].cters@[b].base_attr.cter_id != cter_id);
    } else if j < b {
        assert(ps[i].cters@[j].base_attr.cter_id != cter_id);
    } else if b < j {
        assert(ps[a].cters@[b].base_attr.cter_id != cter_id);
    }
}

/// Where the first character with id `cter_id` is (see `first_cter_at`).
pub(crate) fn locate_cter(bd: &BattleData, cter_id: u32) -> (r: Option<(usize, usize)>)
    ensures
        r is None <==> !cter_found(bd.battle_player@, cter_id),
        r matches Some(l) ==> first_cter_at(bd.battle_player@, cter_id, l.0 as int, l.1 as int),
{
    let ghost ps = bd.battle_player@;
    let mut i: usize = 0;
    while i < bd.battle_player.len()
        invariant
            ps == bd.battle_player@,
            i <= ps.len(),
            forall|a: int, b: int| 0 <= a < i && 0 <= b < ps[a].cters@.len() ==> #[trigger] ps[a].cters@[b].base_attr.cter_id != cter_id,
        decreases ps.len() - i,
    {
        let mut j: usize = 0;
        while j < bd.battle_player[i].cters.len()
            invariant
                ps == bd.battle_player@,
                i < ps.len(),
                j <= ps[i as int].cters@.len(),
                forall|a: int, b: int| 0 <= a < i && 0 <= b < ps[a].cters@.len() ==> #[trigger] ps[a].cters@[b].base_attr.cter_id != cter_id,
                forall|b: int| 0 <= b < j ==> #[trigger] ps[i as int].cters@[b].base_attr.cter_id != cter_id,
            decreases ps[i as int].cters@.len() - j,
        {
            if bd.battle_player[i].cters[j].base_attr.cter_id == cter_id {
                proof {
                    assert(first_cter_at(ps, cter_id, i as int, j as int));
                }
                return Some((i, j));
            }
            j = j + 1;
        }
        i = i + 1;
    }
    proof {
        if cter_found(ps, cter_id) {
            let (a, b) = choose|a: int, b: int| #[trigger] first_cter_at(ps, cter_id, a, b);
            assert(ps[a].cters@[b].base_attr.cter_id != cter_id);
        }
    }
    None
}

/// The checks of a cell shown to everybody: closed and not paired.
pub open spec fn show_all_checks() -> ChoiceFlags {
    (false, true, false, false, false, false)
}

/// Whether entry `e` of the unpaired cells may be shown to everybody: the
/// player of the turn did not open it in this turn, and it passes the
/// checks of `show_all_checks`.
pub open spec fn show_all_eligible(cells: Seq<MapCell>, history: Seq<usize>, e: (usize, u32)) -> bool {
    &&& !history.contains(e.0)
    &&& choice_error(cells, e.0 as int, show_all_checks()) is None
}

/// Whether the cell at `index` has the element of life.
pub open spec fn is_nature_cell(cells: Seq<MapCell>, index: usize) -> bool {
    cells[index as int].element == ElementType::Nature.code()
}

/// `k` is the first unpaired entry that is eligible and of the element of life.
pub open spec fn first_nature_entry(cells: Seq<MapCell>, history: Seq<usize>, upm: Seq<(usize, u32)>, k: int) -> bool {
    &&& 0 <= k < upm.len()
    &&& show_all_eligible(cells, history, upm[k])
    &&& is_nature_cell(cells, upm[k].0)
    &&& forall|m: int| 0 <= m < k ==> !(show_all_eligible(cells, history, #[trigger] upm[m]) && is_nature_cell(cells, upm[m].0))
}

/// Whether `e` is a fair pick of the cell shown to everybody: an eligible
/// unpaired entry, and the first one of the element of life where there is
/// such a one.
pub open spec fn show_all_pick(cells: Seq<MapCell>, history: Seq<usize>, upm: Seq<(usize, u32)>, e: (usize, u32)) -> bool {
    &&& upm.contains(e)
    &&& show_all_eligible(cells, history, e)
    &&& (exists|k: int| #[trigger] first_nature_entry(cells, history, upm, k)) ==> exists|k: int| #[trigger] first_nature_entry(cells, history, upm, k) && upm[k] == e
}

/// Whether some unpaired entry may be shown to everybody.
pub open spec fn show_all_possible(cells: Seq<MapCell>, history: Seq<usize>, upm: Seq<(usize, u32)>) -> bool {
    exists|k: int| 0 <= k < upm.len() && show_all_eligible(cells, history, #[trigger] upm[k])
}

/// The cell shown to everybody: the first eligible unpaired one of the
/// element of life, or else one of the eligible unpaired ones picked at
/// random; `None` where there is none.
fn pick_cell_for_all(bd: &BattleData, history: &Vec<usize>) -> (r: Option<(usize, u32)>)
    ensures
        r is None <==> !show_all_possible(bd.tile_map.map_cells@, history@, bd.tile_map.un_pair_map@),
        r matches Some(e) ==> show_all_pick(bd.tile_map.map_cells@, history@, bd.tile_map.un_pair_map@, e),
{
    let ghost cells = bd.tile_map.map_cells@;
    let ghost upm = bd.tile_map.un_pair_map@;
    let mut v: Vec<(usize, u32)> = Vec::new();
    let mut i: usize = 0;
    while i < bd.tile_map.un_pair_map.len()
        invariant
            cells == bd.tile_map.map_cells@,
            upm == bd.tile_map.un_pair_map@,
            i <= upm.len(),
            forall|m: int| 0 <= m < i ==> !(show_all_eligible(cells, history@, #[trigger] upm[m]) && is_nature_cell(cells, upm[m].0)),
            forall|q: int| 0 <= q < v@.len() ==> upm.contains(#[trigger] v@[q]) && show_all_eligible(cells, history@, v@[q]),
            forall|m: int| 0 <= m < i && show_all_eligible(cells, history@, #[trigger] upm[m]) ==> v@.contains(upm[m]),
        decreases upm.len() - i,
    {
        let e = bd.tile_map.un_pair_map[i];
        let ghost v_before = v@;
        proof {
            assert(upm[i as int] == e);
        }
        if !contains_index(history, e.0) {
            match bd.check_choice_index(e.0, false, true, false, false, false, false) {
                Err(_) => {},
                Ok(_) => {
                    v.push(e);
                    proof {
                        assert(v@[v@.len() - 1] == e);
                        assert(upm.contains(e));
                    }
                    if bd.tile_map.map_cells[e.0].element == ElementType::Nature.into_u8() {
                        proof {
                            assert(first_nature_entry(cells, history@, upm, i as int));
                            assert forall|k: int| #[trigger] first_nature_entry(cells, history@, upm, k) implies k == i by {
                                if k < i {
                                    assert(!(show_all_eligible(cells, history@, upm[k]) && is_nature_cell(cells, upm[k].0)));
                                } else if i < k {
                                    assert(!(show_all_eligible(cells, history@, upm[i as int]) && is_nature_cell(cells, upm[i as int].0)));
                                }
                            }
                        }
                        return Some(e);
                    }
                },
            }
        }
        proof {
            assert forall|m: int| 0 <= m < i + 1 && show_all_eligible(cells, history@, #[trigger] upm[m]) implies v@.contains(upm[m]) by {
                if m == i {
                    assert(v@[v@.len() - 1] == e);
                } else {
                    assert(v_before.contains(upm[m]));
                    let q = choose|q: int| 0 <= q < v_before.len() && v_before[q] == upm[m];
                    assert(v@[q] == upm[m]);
                }
            }
        }
        i = i + 1;
    }
    if v.len() == 0 {
        proof {
            if show_all_possible(cells, history@, upm) {
                let k = choose|k: int| 0 <= k < upm.len() && show_all_eligible(cells, history@, #[trigger] upm[k]);
                assert(v@.contains(upm[k]));
            }
        }
        return None;
    }
    let pick = random_index(v.len());
    let e = v[pick];
    proof {
        assert(show_all_eligible(cells, history@, v@[pick as int]));
        assert(show_all_possible(cells, history@, upm)) by {
            let k = choose|k: int| 0 <= k < upm.len() && upm[k] == e;
            assert(show_all_eligible(cells, history@, upm[k]));
        }
        assert forall|k: int| !(#[trigger] first_nature_entry(cells, history@, upm, k)) by {
            if first_nature_entry(cells, history@, upm, k) {
                assert(!(show_all_eligible(cells, history@, upm[k]) && is_nature_cell(cells, upm[k].0)));
            }
        }
    }
    Some(e)
}

/// `v` with the users of `add` put in, in order, each that is not yet there.
pub open spec fn views_with(v: Seq<u32>, add: Seq<u32>) -> Seq<u32>
    decreases add.len(),
{
    if add.len() == 0 {
        v
    } else {
        let w = views_with(v, add.drop_last());
        if w.contains(add.last()) { w } else { w.push(add.last()) }
    }
}

/// The ids of the traps among `buffs`, in order.
pub open spec fn trap_ids(buffs: Seq<Buff>) -> Seq<u32>
    decreases buffs.len(),
{
    if buffs.len() == 0 {
        Seq::empty()
    } else {
        trap_ids(buffs.drop_last()) + if TRAPS@.contains(buffs.last().function_id) {
            seq![buffs.last().id]
        } else {
            Seq::<u32>::empty()
        }
    }
}

/// `b1` is `b0` after the users of `add` were let see each of its traps.
pub open spec fn traps_seen_by(b0: Seq<Buff>, b1: Seq<Buff>, add: Seq<u32>) -> bool {
    &&& b1.len() == b0.len()
    &&& forall|k: int| 0 <= k < b0.len() ==> {
        &&& #[trigger] b1[k] == Buff { trap_view_users: b1[k].trap_view_users, ..b0[k] }
        &&& b1[k].trap_view_users@ == if TRAPS@.contains(b0[k].function_id) {
            views_with(b0[k].trap_view_users@, add)
        } else {
            b0[k].trap_view_users@
        }
    }
}

/// `tp` shows trap `id` on the cell at `v`.
pub open spec fn trap_shown(tp: TargetPt, id: u32, v: u32) -> bool {
    &&& tp.target_value@ == seq![v]
    &&& tp.add_buffs@ == seq![id]
    &&& tp.effects@.len() == 0
    &&& tp.passive_effect@.len() == 0
}

/// Puts the users of `add` into `views`, in order, each that is not yet there.
fn extend_views(views: &mut Vec<u32>, add: &Vec<u32>)
    ensures
        final(views)@ == views_with(old(views)@, add@),
{
    let ghost v0 = views@;
    let mut a: usize = 0;
    while a < add.len()
        invariant
            a <= add@.len(),
            views@ == views_with(v0, add@.take(a as int)),
        decreases add.len() - a,
    {
        proof {
            assert(add@.take(a + 1).drop_last() =~= add@.take(a as int));
            assert(add@.take(a + 1).last() == add@[a as int]);
        }
        if !contains_u32(views.as_slice(), add[a]) {
            views.push(add[a]);
        }
        a = a + 1;
    }
    proof {
        assert(add@.take(add@.len() as int) =~= add@);
    }
}

/// A target showing trap `id` on the cell at `v`.
fn new_trap_shown(id: u32, v: u32) -> (r: TargetPt)
    ensures
        trap_shown(r, id, v),
{
    let mut tp = TargetPt { target_value: Vec::new(), effects: Vec::new(), passive_effect: Vec::new(), add_buffs: Vec::new() };
    tp.target_value.push(v);
    tp.add_buffs.push(id);
    assert(tp.target_value@ =~= seq![v]);
    assert(tp.add_buffs@ =~= seq![id]);
    tp
}

/// Lets the users of `add` see every trap of the cell at `si`, and shows
/// each trap there, in order; a position off the map changes nothing.
fn reveal_traps(bd: &mut BattleData, si: usize, add: &Vec<u32>) -> (r: Vec<TargetPt>)
    ensures
        *final(bd) == (BattleData {
            tile_map: TileMap { map_cells: final(bd).tile_map.map_cells, ..old(bd).tile_map },
            ..*old(bd)
        }),
        si >= old(bd).tile_map.map_cells@.len() ==> final(bd).tile_map.map_cells@ == old(bd).tile_map.map_cells@
            && r@.len() == 0,
        si < old(bd).tile_map.map_cells@.len() ==> {
            let c0 = old(bd).tile_map.map_cells@[si as int];
            let ids = trap_ids(c0.buffs@);
            &&& final(bd).tile_map.map_cells@ == old(bd).tile_map.map_cells@.update(si as int,
                MapCell { buffs: final(bd).tile_map.map_cells@[si as int].buffs, ..c0 })
            &&& traps_seen_by(c0.buffs@, final(bd).tile_map.map_cells@[si as int].buffs@, add@)
            &&& r@.len() == ids.len()
            &&& forall|q: int| 0 <= q < ids.len() ==> trap_shown(#[trigger] r@[q], ids[q], c0.index as u32)
        },
{
    let mut out: Vec<TargetPt> = Vec::new();
    if si >= bd.tile_map.map_cells.len() {
        return out;
    }
    let ghost bd0 = *bd;
    let ghost c0 = bd.tile_map.map_cells@[si as int];
    let ghost b0 = c0.buffs@;
    let cell_index = bd.tile_map.map_cells[si].index;
    let mut k: usize = 0;
    while k < bd.tile_map.map_cells[si].buffs.len()
        invariant
            si < bd0.tile_map.map_cells@.len(),
            c0 == bd0.tile_map.map_cells@[si as int],
            b0 == c0.buffs@,
            cell_index == c0.index,
            k <= b0.len(),
            *bd == (BattleData { tile_map: TileMap { map_cells: bd.tile_map.map_cells, ..bd0.tile_map }, ..bd0 }),
            bd.tile_map.map_cells@ == bd0.tile_map.map_cells@.update(si as int,
                MapCell { buffs: bd.tile_map.map_cells@[si as int].buffs, ..c0 }),
            bd.tile_map.map_cells@[si as int].buffs@.len() == b0.len(),
            forall|m: int| 0 <= m < k ==> {
                &&& #[trigger] bd.tile_map.map_cells@[si as int].buffs@[m]
                    == Buff { trap_view_users: bd.tile_map.map_cells@[si as int].buffs@[m].trap_view_users, ..b0[m] }
                &&& bd.tile_map.map_cells@[si as int].buffs@[m].trap_view_users@ == if TRAPS@.contains(b0[m].function_id) {
                    views_with(b0[m].trap_view_users@, add@)
                } else {
                    b0[m].trap_view_users@
                }
            },
            forall|m: int| k <= m < b0.len() ==> #[trigger] bd.tile_map.map_cells@[si as int].buffs@[m] == b0[m],
            out@.len() == trap_ids(b0.take(k as int)).len(),
            forall|q: int| 0 <= q < out@.len() ==> trap_shown(#[trigger] out@[q], trap_ids(b0.take(k as int))[q], c0.index as u32),
        decreases b0.len() - k,
    {
        proof {
            assert(b0.take(k + 1).drop_last() =~= b0.take(k as int));
            assert(b0.take(k + 1).last() == b0[k as int]);
        }
        let fid = bd.tile_map.map_cells[si].buffs[k].function_id;
        if contains_u32(&TRAPS, fid) {
            let id = bd.tile_map.map_cells[si].buffs[k].id;
            out.push(new_trap_shown(id, cell_index as u32));
            let mut views: Vec<u32> = Vec::new();
            std::mem::swap(&mut bd.tile_map.map_cells[si].buffs[k].trap_view_users, &mut views);
            extend_views(&mut views, add);
            std::mem::swap(&mut bd.tile_map.map_cells[si].buffs[k].trap_view_users, &mut views);
        }
        k = k + 1;
    }
    proof {
        assert(b0.take(b0.len() as int) =~= b0);
    }
    out
}

/// The checks of a cell shown by the plain showing: closed, not paired,
/// not the world cell.
pub open spec fn show_checks() -> ChoiceFlags {
    (false, true, true, true, false, false)
}

/// The moves of the turn's player in this turn, opened cells first.
pub open spec fn turn_history(bd: BattleData) -> Seq<usize> {
    player_of(bd.battle_player@, wanted_user(bd, None)).flow_data.open_map_cell_vec_history@
}

/// Whether a showing of cells gives up (and changes nothing): no cell named
/// where one is needed, the character is out of the battle, the kind of
/// viewer is unknown, no cell can be shown to everybody, or the named cell
/// fails the checks of `show_checks`.
pub open spec fn show_refused(bd: BattleData, cter_id: u32, temp: SkillTemp, ta: Seq<u32>) -> bool {
    let fid = temp.function_id;
    let cells = bd.tile_map.map_cells@;
    ||| fid != SHOW_ALL_USERS_CELL && ta.len() == 0
    ||| cter_at_loc(bd.battle_player@, cter_id).state == BattleCterState::Died
    ||| temp.view_target > 27
    ||| fid == SHOW_ALL_USERS_CELL && !show_all_possible(cells, turn_history(bd), bd.tile_map.un_pair_map@)
    ||| fid != SHOW_ALL_USERS_CELL && fid != SHOW_SAME_ELMENT_CELL_ALL_AND_CURE
        && choice_error(cells, ta[0] as int, show_checks()) is Some
}

/// Whether the cell shown, at `si` with id `sid`, is the one the skill
/// picks: one picked for everybody (see `show_all_pick`), or else the cell
/// named first.
pub open spec fn shown_cell(bd: BattleData, temp: SkillTemp, ta: Seq<u32>, si: usize, sid: u32) -> bool {
    let cells = bd.tile_map.map_cells@;
    if temp.function_id == SHOW_ALL_USERS_CELL {
        show_all_pick(cells, turn_history(bd), bd.tile_map.un_pair_map@, (si, sid))
    } else {
        si == cells[ta[0] as int].index && sid == cells[ta[0] as int].id
    }
}

/// Whether the skill gives energy: it shows cells of one element and the
/// named cell has the configured element.
pub open spec fn energy_hit(bd: BattleData, temp: SkillTemp, ta: Seq<u32>) -> bool {
    temp.function_id == SHOW_SAME_ELMENT_CELL_ALL_AND_CURE
        && (temp.par1 as u8) == bd.tile_map.map_cells@[ta[0] as int].element
}

/// `tp` shows the cell at `si`, whose id is `sid`.
pub open spec fn cell_id_shown(tp: TargetPt, si: usize, sid: u32) -> bool {
    &&& tp.target_value@ == seq![si as u32, sid]
    &&& tp.effects@.len() == 0
    &&& tp.passive_effect@.len() == 0
    &&& tp.add_buffs@.len() == 0
}

/// `tp` shows energy `value` given to the character on the cell at `cell`.
pub open spec fn energy_shown(tp: TargetPt, cell: usize, value: u32) -> bool {
    &&& tp.target_value@ == seq![cell as u32]
    &&& tp.effects@ == seq![EffectPt { effect_type: EffectType::AddEnergy.code() as u32, effect_value: value }]
    &&& tp.passive_effect@.len() == 0
    &&& tp.add_buffs@.len() == 0
}

/// `au` is an action of nobody showing each trap of `ids` on the cell at `v`.
pub open spec fn traps_unit(au: ActionUnitPt, ids: Seq<u32>, v: u32) -> bool {
    &&& plain_unit(au)
    &&& au.targets@.len() == ids.len()
    &&& forall|q: int| 0 <= q < ids.len() ==> trap_shown(#[trigger] au.targets@[q], ids[q], v)
}

/// The users a shown trap becomes visible to: the owner of the character
/// where only it sees what the skill shows, else every player.
pub open spec fn trap_audience(bd: BattleData, cter_id: u32, temp: SkillTemp) -> Seq<u32> {
    if temp.view_target == TargetType::PlayerSelf.code() {
        seq![cter_at_loc(bd.battle_player@, cter_id).base_attr.user_id]
    } else {
        bd.battle_player@.map_values(|p: BattlePlayer| p.user_id)
    }
}

/// The players after a showing: the character `cter_id` got the energy
/// where the skill gives it, and the turn's player is held until the
/// showing ends (its operation locked on the skill, the turn not endable).
pub open spec fn players_after_show(ps0: Seq<BattlePlayer>, ps1: Seq<BattlePlayer>, tu: u32, cter_id: u32, temp: SkillTemp, hit: bool) -> bool {
    let (ci, cj) = cter_loc(ps0, cter_id);
    let c0 = cter_at_loc(ps0, cter_id);
    let c1 = BattleCharacter {
        base_attr: BaseAttr {
            energy: energy_after(c0.base_attr.energy, c0.base_attr.max_energy, temp.par2 as i8) as u8,
            ..c0.base_attr
        },
        ..c0
    };
    &&& ps1.len() == ps0.len()
    &&& forall|k: int| 0 <= k < ps0.len() ==> {
        &&& #[trigger] ps1[k] == BattlePlayer { cters: ps1[k].cters, status: ps1[k].status, ..ps0[k] }
        &&& ps1[k].status == if first_player(ps0, tu, k) {
            BattleStatus { locked_oper: temp.id, is_can_end_turn: false, ..ps0[k].status }
        } else {
            ps0[k].status
        }
        &&& ps1[k].cters@ == if hit && k == ci { ps0[k].cters@.update(cj, c1) } else { ps0[k].cters@ }
    }
}

/// What a showing tells: where only the character's owner `uid` sees it, a
/// skill action showing the cell (and the traps on it, if any) to it alone;
/// else the traps on the cell, if any, to everybody (user 0).
pub open spec fn show_told(v: Seq<(u32, ActionUnitPt)>, self_view: bool, uid: u32, cter_id: u32, skill_id: u32, si: usize, sid: u32, ids: Seq<u32>, cv: u32) -> bool {
    if self_view {
        &&& v.len() == if ids.len() > 0 { 2int } else { 1int }
        &&& v[0].0 == uid
        &&& v[0].1.from_user == cter_id
        &&& v[0].1.action_type == ActionType::Skill.code()
        &&& v[0].1.action_value@ == seq![skill_id]
        &&& v[0].1.targets@.len() == 1
        &&& cell_id_shown(v[0].1.targets@[0], si, sid)
        &&& ids.len() > 0 ==> v[1].0 == uid && traps_unit(v[1].1, ids, cv)
    } else {
        &&& v.len() == if ids.len() > 0 { 1int } else { 0int }
        &&& ids.len() > 0 ==> v[0].0 == 0 && traps_unit(v[0].1, ids, cv)
    }
}

/// Everything a showing of the cell at `si` (id `sid`) does, from battle
/// `bd0` and action `au0` to `bd1`, `au1` and the result `v`.
pub open spec fn show_done(
    bd0: BattleData, bd1: BattleData, au0: ActionUnitPt, au1: ActionUnitPt, v: Seq<(u32, ActionUnitPt)>,
    cter_id: u32, temp: SkillTemp, ta: Seq<u32>, si: usize, sid: u32,
) -> bool {
    let cells0 = bd0.tile_map.map_cells@;
    let ps0 = bd0.battle_player@;
    let c0 = cter_at_loc(ps0, cter_id);
    let hit = energy_hit(bd0, temp, ta);
    let self_view = temp.view_target == TargetType::PlayerSelf.code();
    let n0 = au0.targets@.len() as int;
    let e = if hit { 1int } else { 0int };
    let ids = if si < cells0.len() { trap_ids(cells0[si as int].buffs@) } else { Seq::<u32>::empty() };
    &&& bd1 == (BattleData {
        tile_map: TileMap { map_cells: bd1.tile_map.map_cells, ..bd0.tile_map },
        battle_player: bd1.battle_player,
        ..bd0
    })
    &&& players_after_show(ps0, bd1.battle_player@, wanted_user(bd0, None), cter_id, temp, hit)
    &&& si >= cells0.len() ==> bd1.tile_map.map_cells@ == cells0
    &&& si < cells0.len() ==> {
        &&& bd1.tile_map.map_cells@ == cells0.update(si as int, MapCell { buffs: bd1.tile_map.map_cells@[si as int].buffs, ..cells0[si as int] })
        &&& traps_seen_by(cells0[si as int].buffs@, bd1.tile_map.map_cells@[si as int].buffs@, trap_audience(bd0, cter_id, temp))
    }
    &&& au1.from_user == au0.from_user
    &&& au1.action_type == au0.action_type
    &&& au1.action_value == au0.action_value
    &&& au1.targets@.len() == n0 + e + if self_view { 0int } else { 1int }
    &&& forall|k: int| 0 <= k < n0 ==> #[trigger] au1.targets@[k] == au0.targets@[k]
    &&& hit ==> energy_shown(au1.targets@[n0], c0.get_map_cell_index_spec(), temp.par2)
    &&& !self_view ==> cell_id_shown(au1.targets@[n0 + e], si, sid)
    &&& show_told(v, self_view, c0.base_attr.user_id, cter_id, temp.id, si, sid, ids,
        if si < cells0.len() { cells0[si as int].index as u32 } else { 0u32 })
}

/// The skills that show a cell (`skill_temp` is the skill's configuration,
/// `cter_id` the character using it): to everybody the first cell of the
/// element of life that may be shown, else one picked at random
/// (`SHOW_ALL_USERS_CELL`); the cell named first, giving the character
/// energy where its element is the configured one
/// (`SHOW_SAME_ELMENT_CELL_ALL_AND_CURE`); or the cell named first, where
/// it passes the checks of `show_checks`. The traps on the shown cell
/// become visible to who sees the showing. The player of the turn is then
/// held until the showing ends. See `show_refused` for when nothing happens
/// and `show_done` for all a showing does.
pub fn show_map_cell(
    battle_data: &mut BattleData,
    cter_id: u32,
    skill_temp: &SkillTemp,
    target_array: Vec<u32>,
    au: &mut ActionUnitPt,
) -> (r: Option<Vec<(u32, ActionUnitPt)>>)
    requires
        !(skill_temp.function_id != SHOW_ALL_USERS_CELL && target_array@.len() == 0) ==> {
            &&& cter_found(old(battle_data).battle_player@, cter_id)
            &&& old(battle_data).next_turn_index < 4
            &&& lookup_error(old(battle_data).battle_player@, wanted_user(*old(battle_data), None), true) is None
        },
        skill_temp.function_id == SHOW_SAME_ELMENT_CELL_ALL_AND_CURE && target_array@.len() >= 1
            && cter_at_loc(old(battle_data).battle_player@, cter_id).state != BattleCterState::Died
            && skill_temp.view_target <= 27 ==> {
            &&& (target_array@[0] as int) < old(battle_data).tile_map.map_cells@.len()
            &&& energy_hit(*old(battle_data), *skill_temp, target_array@) ==> {
                let c = cter_at_loc(old(battle_data).battle_player@, cter_id);
                &&& c.base_attr.energy <= 127
                &&& c.base_attr.max_energy <= 127
                &&& i8::MIN <= c.base_attr.energy + (skill_temp.par2 as i8) <= i8::MAX
            }
        },
    ensures
        show_refused(*old(battle_data), cter_id, *skill_temp, target_array@) ==> {
            &&& r is None
            &&& *final(battle_data) == *old(battle_data)
            &&& *final(au) == *old(au)
        },
        !show_refused(*old(battle_data), cter_id, *skill_temp, target_array@) ==> (r matches Some(v)
            && exists|si: usize, sid: u32| #[trigger] shown_cell(*old(battle_data), *skill_temp, target_array@, si, sid)
                && show_done(*old(battle_data), *final(battle_data), *old(au), *final(au), v@, cter_id, *skill_temp, target_array@, si, sid)),
{
    let fid = skill_temp.function_id;
    if fid != SHOW_ALL_USERS_CELL && target_array.len() == 0 {
        return None;
    }
    let ghost bd0 = *battle_data;
    let ghost ps0 = battle_data.battle_player@;
    let (ci, cj) = match locate_cter(battle_data, cter_id) {
        Some(l) => l,
        None => return None,
    };
    proof {
        let (a, b) = cter_loc(ps0, cter_id);
        lemma_first_cter_at_unique(ps0, cter_id, ci as int, cj as int, a, b);
    }
    let user_id = battle_data.battle_player[ci].cters[cj].base_attr.user_id;
    let turn_user = match battle_data.get_turn_user(None) {
        Ok(u) => u,
        Err(_) => return None,
    };
    let ti = match battle_data.get_battle_player_pos(turn_user, true) {
        Ok(i) => i,
        Err(_) => return None,
    };
    if battle_data.battle_player[ci].cters[cj].is_died() {
        return None;
    }
    if skill_temp.view_target > 27 {
        return None;
    }
    let self_view = skill_temp.view_target == TargetType::PlayerSelf.into_u8();
    let mut hit = false;
    let (si, sid) = if fid == SHOW_ALL_USERS_CELL {
        match pick_cell_for_all(battle_data, &battle_data.battle_player[ti].flow_data.open_map_cell_vec_history) {
            Some(e) => e,
            None => return None,
        }
    } else if fid == SHOW_SAME_ELMENT_CELL_ALL_AND_CURE {
        let index = target_array[0] as usize;
        let c = &battle_data.tile_map.map_cells[index];
        hit = skill_temp.par1 as u8 == c.element;
        (c.index, c.id)
    } else {
        let index = target_array[0] as usize;
        match battle_data.check_choice_index(index, false, true, true, true, false, false) {
            Err(_) => return None,
            Ok(_) => {},
        }
        let c = &battle_data.tile_map.map_cells[index];
        (c.index, c.id)
    };
    assert(shown_cell(bd0, *skill_temp, target_array@, si, sid));
    if hit {
        let cell = battle_data.battle_player[ci].cters[cj].get_map_cell_index();
        let mut tp = TargetPt { target_value: Vec::new(), effects: Vec::new(), passive_effect: Vec::new(), add_buffs: Vec::new() };
        tp.target_value.push(cell as u32);
        tp.effects.push(EffectPt { effect_type: EffectType::AddEnergy.into_u32(), effect_value: skill_temp.par2 });
        assert(tp.target_value@ =~= seq![cell as u32]);
        assert(tp.effects@ =~= seq![EffectPt { effect_type: EffectType::AddEnergy.code() as u32, effect_value: skill_temp.par2 }]);
        au.targets.push(tp);
        battle_data.battle_player[ci].cters[cj].add_energy(skill_temp.par2 as i8);
    }
    let mut viewers: Vec<u32> = Vec::new();
    if self_view {
        viewers.push(user_id);
        assert(viewers@ =~= seq![user_id]);
    } else {
        let mut k: usize = 0;
        while k < battle_data.battle_player.len()
            invariant
                k <= battle_data.battle_player@.len(),
                battle_data.battle_player@.len() == ps0.len(),
                forall|q: int| 0 <= q < ps0.len() ==> #[trigger] battle_data.battle_player@[q].user_id == ps0[q].user_id,
                viewers@ == ps0.map_values(|p: BattlePlayer| p.user_id).take(k as int),
            decreases battle_data.battle_player.len() - k,
        {
            viewers.push(battle_data.battle_player[k].user_id);
            proof {
                assert(ps0.map_values(|p: BattlePlayer| p.user_id).take(k + 1)
                    =~= ps0.map_values(|p: BattlePlayer| p.user_id).take(k as int).push(ps0[k as int].user_id));
            }
            k = k + 1;
        }
        proof {
            assert(ps0.map_values(|p: BattlePlayer| p.user_id).take(ps0.len() as int) =~= ps0.map_values(|p: BattlePlayer| p.user_id));
        }
    }
    let traps = reveal_traps(battle_data, si, &viewers);
    let mut au_vec: Vec<(u32, ActionUnitPt)> = Vec::new();
    let mut trap_unit = build_action_unit_pt(0, ActionType::Invalid, 0);
    let has_traps = traps.len() > 0;
    let ghost trap_targets = traps@;
    let mut traps = traps;
    while traps.len() > 0
        invariant
            plain_unit(trap_unit),
            trap_unit.targets@ + traps@ == trap_targets,
        decreases traps.len(),
    {
        let t = traps.remove(0);
        proof {
            assert(trap_unit.targets@.push(t) + traps@ =~= trap_targets);
        }
        trap_unit.targets.push(t);
    }
    assert(trap_unit.targets@ =~= trap_targets);
    let shown_tp = {
        let mut tp = TargetPt { target_value: Vec::new(), effects: Vec::new(), passive_effect: Vec::new(), add_buffs: Vec::new() };
        tp.target_value.push(si as u32);
        tp.target_value.push(sid);
        assert(tp.target_value@ =~= seq![si as u32, sid]);
        tp
    };
    if self_view {
        let mut au_pt = build_action_unit_pt(cter_id, ActionType::Skill, skill_temp.id);
        au_pt.targets.push(shown_tp);
        au_vec.push((user_id, au_pt));
        if has_traps {
            au_vec.push((user_id, trap_unit));
        }
    } else {
        au.targets.push(shown_tp);
        if has_traps {
            au_vec.push((0, trap_unit));
        }
    }
    battle_data.battle_player[ti].status.locked_oper = skill_temp.id;
    battle_data.battle_player[ti].status.is_can_end_turn = false;
    Some(au_vec)
}

/// `s1` is `s0` with the cooldown of every skill moved by `value` and held
/// between 0 and its configured cooldown.
pub open spec fn cds_added(s0: Seq<Skill>, s1: Seq<Skill>, value: i8) -> bool {
    &&& s1.len() == s0.len()
    &&& forall|i: int| 0 <= i < s0.len() ==> #[trigger] s1[i]
        == (Skill { cd_times: clamped_cd(s0[i].cd_times, value, s0[i].skill_temp.cd) as i8, ..s0[i] })
}

/// Moves the cooldown of every skill in `skills` by `value`.
fn add_cd_to_all(skills: &mut Vec<Skill>, value: i8)
    requires
        forall|i: int| 0 <= i < old(skills)@.len() ==> i8::MIN <= #[trigger] old(skills)@[i].cd_times + value <= i8::MAX,
    ensures
        cds_added(old(skills)@, final(skills)@, value),
{
    let ghost s0 = skills@;
    let mut k: usize = 0;
    while k < skills.len()
        invariant
            k <= s0.len(),
            skills@.len() == s0.len(),
            forall|i: int| 0 <= i < s0.len() ==> i8::MIN <= #[trigger] s0[i].cd_times + value <= i8::MAX,
            forall|i: int| k <= i < s0.len() ==> #[trigger] skills@[i] == s0[i],
            forall|i: int| 0 <= i < k ==> #[trigger] skills@[i]
                == (Skill { cd_times: clamped_cd(s0[i].cd_times, value, s0[i].skill_temp.cd) as i8, ..s0[i] }),
        decreases s0.len() - k,
    {
        let mut sk = skills[k];
        sk.add_cd(value);
        skills.set(k, sk);
        k = k + 1;
    }
}

/// The players after the skills of character `cter_id` (the first with
/// that id) had their cooldowns moved by `value`; nothing else changed.
pub open spec fn cter_cds_moved(ps0: Seq<BattlePlayer>, ps1: Seq<BattlePlayer>, cter_id: u32, value: i8) -> bool {
    let (ci, cj) = cter_loc(ps0, cter_id);
    let c0 = ps0[ci].cters@[cj];
    &&& ps1.len() == ps0.len()
    &&& forall|k: int| 0 <= k < ps0.len() && k != ci ==> #[trigger] ps1[k] == ps0[k]
    &&& ps1[ci] == (BattlePlayer { cters: ps1[ci].cters, ..ps0[ci] })
    &&& ps1[ci].cters@.len() == ps0[ci].cters@.len()
    &&& forall|m: int| 0 <= m < ps0[ci].cters@.len() && m != cj ==> #[trigger] ps1[ci].cters@[m] == ps0[ci].cters@[m]
    &&& ps1[ci].cters@[cj] == (BattleCharacter { skills: ps1[ci].cters@[cj].skills, ..c0 })
    &&& cds_added(c0.skills@, ps1[ci].cters@[cj].skills@, value)
}

/// `tp` shows the cooldowns of the character on the cell at `cell` cut by `value`.
pub open spec fn cds_cut_shown(tp: TargetPt, cell: usize, value: u32) -> bool {
    &&& tp.target_value@ == seq![cell as u32]
    &&& tp.effects@ == seq![EffectPt { effect_type: EffectType::SubSkillCd.code() as u32, effect_value: value }]
    &&& tp.passive_effect@.len() == 0
    &&& tp.add_buffs@.len() == 0
}

/// The skill that cuts the cooldowns of a character (`skill_temp` is the
/// skill's configuration): the character named first in `target_array` (the
/// first with that id, which must be in the battle) has the cooldown of
/// every skill cut by the skill's first parameter (see `cds_added`), and
/// `au` shows it. Where there is no such living character nothing changes.
/// Nothing is returned.
pub fn sub_cd(
    battle_data: &mut BattleData,
    cter_id: u32,
    skill_temp: &SkillTemp,
    target_array: Vec<u32>,
    au: &mut ActionUnitPt,
) -> (r: Option<Vec<(u32, ActionUnitPt)>>)
    requires
        target_array@.len() >= 1,
        cter_found(old(battle_data).battle_player@, target_array@[0])
            && cter_at_loc(old(battle_data).battle_player@, target_array@[0]).state != BattleCterState::Died ==> {
            &&& (skill_temp.par1 as i8) != i8::MIN
            &&& forall|i: int| 0 <= i < cter_at_loc(old(battle_data).battle_player@, target_array@[0]).skills@.len()
                ==> i8::MIN <= #[trigger] cter_at_loc(old(battle_data).battle_player@, target_array@[0]).skills@[i].cd_times
                    - (skill_temp.par1 as i8) <= i8::MAX
        },
    ensures
        r is None,
        ({
            let ps0 = old(battle_data).battle_player@;
            let target = target_array@[0];
            if cter_found(ps0, target) && cter_at_loc(ps0, target).state != BattleCterState::Died {
                &&& cter_cds_moved(ps0, final(battle_data).battle_player@, target, (-(skill_temp.par1 as i8)) as i8)
                &&& *final(battle_data) == (BattleData { battle_player: final(battle_data).battle_player, ..*old(battle_data) })
                &&& final(au).from_user == old(au).from_user
                &&& final(au).action_type == old(au).action_type
                &&& final(au).action_value == old(au).action_value
                &&& final(au).targets@.len() == old(au).targets@.len() + 1
                &&& forall|k: int| 0 <= k < old(au).targets@.len() ==> #[trigger] final(au).targets@[k] == old(au).targets@[k]
                &&& cds_cut_shown(final(au).targets@[old(au).targets@.len() as int],
                    cter_at_loc(ps0, target).get_map_cell_index_spec(), skill_temp.par1)
            } else {
                &&& *final(battle_data) == *old(battle_data)
                &&& *final(au) == *old(au)
            }
        }),
{
    let target_cter_id = target_array[0];
    let ghost ps0 = battle_data.battle_player@;
    let (ci, cj) = match locate_cter(battle_data, target_cter_id) {
        Some(l) => l,
        None => return None,
    };
    proof {
        let (a, b) = cter_loc(ps0, target_cter_id);
        lemma_first_cter_at_unique(ps0, target_cter_id, ci as int, cj as int, a, b);
    }
    if battle_data.battle_player[ci].cters[cj].is_died() {
        return None;
    }
    let cell = battle_data.battle_player[ci].cters[cj].get_map_cell_index();
    let mut tp = TargetPt { target_value: Vec::new(), effects: Vec::new(), passive_effect: Vec::new(), add_buffs: Vec::new() };
    tp.target_value.push(cell as u32);
    tp.effects.push(EffectPt { effect_type: EffectType::SubSkillCd.into_u32(), effect_value: skill_temp.par1 });
    assert(tp.target_value@ =~= seq![cell as u32]);
    assert(tp.effects@ =~= seq![EffectPt { effect_type: EffectType::SubSkillCd.code() as u32, effect_value: skill_temp.par1 }]);
    au.targets.push(tp);
    let value: i8 = -(skill_temp.par1 as i8);
    add_cd_to_all(&mut battle_data.battle_player[ci].cters[cj].skills, value);
    None
}

/// Why the target cells of a skill cannot be worked out.
#[derive(Debug, Clone, Copy, PartialEq, Eq, Structural)]
pub enum TargetArrayError {
    /// no skill with this id is configured
    NoSkillTemp(u32),
    /// the skill's kind of target is unknown
    UnknownTarget(u32),
}

/// `i` is the position of the first configured skill with id `id`.
pub open spec fn first_skill_temp(temps: Seq<SkillTemp>, id: u32, i: int) -> bool {
    &&& 0 <= i < temps.len()
    &&& temps[i].id == id
    &&& forall|j: int| 0 <= j < i ==> #[trigger] temps[j].id != id
}

/// The configuration of skill `id`: the first one with that id.
pub open spec fn skill_temp_of(temps: Seq<SkillTemp>, id: u32) -> Option<SkillTemp> {
    if exists|i: int| #[trigger] first_skill_temp(temps, id, i) {
        Some(temps[choose|i: int| #[trigger] first_skill_temp(temps, id, i)])
    } else {
        None
    }
}

/// The configuration of skill `id` (see `skill_temp_of`).
fn find_skill_temp(temps: &Vec<SkillTemp>, id: u32) -> (r: Option<SkillTemp>)
    ensures
        r == skill_temp_of(temps@, id),
{
    let mut i: usize = 0;
    while i < temps.len()
        invariant
            i <= temps@.len(),
            forall|j: int| 0 <= j < i ==> #[trigger] temps@[j].id != id,
        decreases temps.len() - i,
    {
        if temps[i].id == id {
            proof {
                assert(first_skill_temp(temps@, id, i as int));
                let k = choose|k: int| #[trigger] first_skill_temp(temps@, id, k);
                if k < i {
                    assert(temps@[k].id != id);
                } else if i < k {
                    assert(temps@[i as int].id != id);
                }
            }
            return Some(temps[i]);
        }
        i = i + 1;
    }
    None
}

/// Whether a skill aimed at other players on opened cells hits the cell
/// `c`: opened, with a player in the battle other than `user_id` on it,
/// and of element `element` where one is given (not 0).
pub open spec fn other_player_cell(bd: BattleData, user_id: u32, element: u8, c: MapCell) -> bool {
    &&& c.open_user != 0
    &&& c.user_id != user_id
    &&& c.user_id != 0
    &&& has_player(bd.battle_player@, c.user_id)
    &&& (element > 0 ==> c.element == element)
}

/// The positions, in map order, of the first `n` cells that
/// `other_player_cell` picks.
pub open spec fn other_player_cells(bd: BattleData, user_id: u32, element: u8, n: nat) -> Seq<usize>
    decreases n,
{
    if n == 0 {
        Seq::empty()
    } else {
        let c = bd.tile_map.map_cells@[n - 1];
        other_player_cells(bd, user_id, element, (n - 1) as nat) + if other_player_cell(bd, user_id, element, c) {
            seq![c.index]
        } else {
            Seq::<usize>::empty()
        }
    }
}

/// Cell `m`, among the first `n` cells, is one a skill aimed at other
/// players on opened cells may pick: it is opened, and a player of the
/// battle other than `user_id` stands on it (of element `element` where
/// that is not 0).
pub open spec fn opened_other_player_cell(bd: BattleData, user_id: u32, element: u8, n: nat, m: int) -> bool {
    &&& 0 <= m < n
    &&& bd.tile_map.map_cells@[m].open_user != 0
    &&& bd.tile_map.map_cells@[m].user_id != 0
    &&& bd.tile_map.map_cells@[m].user_id != user_id
    &&& has_player(bd.battle_player@, bd.tile_map.map_cells@[m].user_id)
    &&& (element > 0 ==> bd.tile_map.map_cells@[m].element == element)
}

/// Every cell a skill aimed at other players on opened cells picks from the
/// first `n` cells is one of them that is opened and holds another player
/// of the battle (see `opened_other_player_cell`).
pub proof fn law_other_player_cells_are_opened(bd: BattleData, user_id: u32, element: u8, n: nat, k: int)
    requires
        n <= bd.tile_map.map_cells@.len(),
        0 <= k < other_player_cells(bd, user_id, element, n).len(),
    ensures
        exists|m: int| #[trigger] opened_other_player_cell(bd, user_id, element, n, m)
            && bd.tile_map.map_cells@[m].index == other_player_cells(bd, user_id, element, n)[k],
    decreases n,
{
    let prev = other_player_cells(bd, user_id, element, (n - 1) as nat);
    let cur = other_player_cells(bd, user_id, element, n);
    if k < prev.len() {
        law_other_player_cells_are_opened(bd, user_id, element, (n - 1) as nat, k);
        assert(cur[k] == prev[k]);
        let m = choose|m: int| #[trigger] opened_other_player_cell(bd, user_id, element, (n - 1) as nat, m)
            && bd.tile_map.map_cells@[m].index == prev[k];
        assert(opened_other_player_cell(bd, user_id, element, n, m));
    } else {
        assert(other_player_cell(bd, user_id, element, bd.tile_map.map_cells@[n - 1]));
        assert(cur[k] == bd.tile_map.map_cells@[n - 1].index);
        assert(opened_other_player_cell(bd, user_id, element, n, n - 1));
    }
}

/// Every cell among the first `n` that is opened and holds another player
/// of the battle (see `opened_other_player_cell`) is picked.
pub proof fn law_opened_other_player_cells_are_picked(bd: BattleData, user_id: u32, element: u8, n: nat)
    requires
        n <= bd.tile_map.map_cells@.len(),
    ensures
        forall|m: int| #[trigger] opened_other_player_cell(bd, user_id, element, n, m)
            ==> other_player_cells(bd, user_id, element, n).contains(bd.tile_map.map_cells@[m].index),
    decreases n,
{
    if n > 0 {
        law_opened_other_player_cells_are_picked(bd, user_id, element, (n - 1) as nat);
        let prev = other_player_cells(bd, user_id, element, (n - 1) as nat);
        let cur = other_player_cells(bd, user_id, element, n);
        assert forall|m: int| #[trigger] opened_other_player_cell(bd, user_id, element, n, m)
            implies cur.contains(bd.tile_map.map_cells@[m].index) by {
            if m < n - 1 {
                assert(opened_other_player_cell(bd, user_id, element, (n - 1) as nat, m));
                let q = choose|q: int| 0 <= q < prev.len() && prev[q] == bd.tile_map.map_cells@[m].index;
                assert(cur[q] == prev[q]);
            } else {
                assert(other_player_cell(bd, user_id, element, bd.tile_map.map_cells@[n - 1]));
                assert(cur[prev.len() as int] == bd.tile_map.map_cells@[n - 1].index);
            }
        }
    }
}

impl BattleData {
    /// The cells skill `skill_id` (configured in `skill_temps`) of player
    /// `user_id` aims at: for a skill aimed at other players on opened
    /// cells, those cells in map order (of the element of the skill's second
    /// parameter, where it gives one; see `other_player_cell`); none for
    /// any other kind of target. Fails where the skill is not configured or
    /// its kind of target is unknown.
    pub fn get_target_array(&self, user_id: u32, skill_id: u32, skill_temps: &Vec<SkillTemp>) -> (r: Result<Vec<usize>, TargetArrayError>)
        ensures
            match skill_temp_of(skill_temps@, skill_id) {
                None => r == Err::<Vec<usize>, TargetArrayError>(TargetArrayError::NoSkillTemp(skill_id)),
                Some(t) => if t.target > 27 {
                    r == Err::<Vec<usize>, TargetArrayError>(TargetArrayError::UnknownTarget(t.target))
                } else if t.target == TargetType::MapCellOtherPlayer.code() {
                    r matches Ok(v) && v@ == other_player_cells(*self, user_id, t.par2 as u8, self.tile_map.map_cells@.len())
                } else {
                    r matches Ok(v) && v@.len() == 0
                },
            },
    {
        let t = match find_skill_temp(skill_temps, skill_id) {
            None => return Err(TargetArrayError::NoSkillTemp(skill_id)),
            Some(t) => t,
        };
        if t.target > 27 {
            return Err(TargetArrayError::UnknownTarget(t.target));
        }
        let mut v: Vec<usize> = Vec::new();
        if t.target != TargetType::MapCellOtherPlayer.into_u32() {
            return Ok(v);
        }
        let element = t.par2 as u8;
        let mut i: usize = 0;
        while i < self.tile_map.map_cells.len()
            invariant
                i <= self.tile_map.map_cells@.len(),
                v@ == other_player_cells(*self, user_id, element, i as nat),
            decreases self.tile_map.map_cells.len() - i,
        {
            let c = &self.tile_map.map_cells[i];
            let ghost before = v@;
            let mut hit = c.open_user != 0 && c.user_id != user_id && c.user_id != 0;
            if hit {
                hit = match crate::battle::player_position(&self.battle_player, c.user_id) {
                    Some(_) => true,
                    None => false,
                };
            }
            if hit && element > 0 && c.element != element {
                hit = false;
            }
            if hit {
                v.push(c.index);
                proof {
                    assert(other_player_cells(*self, user_id, element, (i + 1) as nat) =~= before.push(c.index));
                }
            } else {
                proof {
                    assert(other_player_cells(*self, user_id, element, (i + 1) as nat) =~= before);
                }
            }
            i = i + 1;
        }
        Ok(v)
    }
}

/// The kinds of target whose buff goes on a cell.
pub open spec fn buff_on_cell(t: TargetType) -> bool {
    ||| t == TargetType::MapCell
    ||| t == TargetType::UnOpenMapCell
    ||| t == TargetType::UnPairMapCell
    ||| t == TargetType::NullMapCell
    ||| t == TargetType::UnPairNullMapCell
    ||| t == TargetType::OpenedMapCell
    ||| t == TargetType::UnOpenMapCellAndUnLock
    ||| t == TargetType::UnLockNullMapCell
}

/// `tp` tells that cell `v` got buff `buff_id`, and nothing more.
pub open spec fn buff_notice(tp: TargetPt, v: u32, buff_id: u32) -> bool {
    &&& tp.target_value@ == seq![v]
    &&& tp.add_buffs@ == seq![buff_id]
    &&& tp.effects@.len() == 0
    &&& tp.passive_effect@.len() == 0
}

/// `au1` is `au0` with one target more: `buff_notice` of cell `v` and buff
/// `buff_id`.
pub open spec fn notice_added(au0: ActionUnitPt, au1: ActionUnitPt, v: u32, buff_id: u32) -> bool {
    &&& au1 == (ActionUnitPt { targets: au1.targets, ..au0 })
    &&& au1.targets@.len() == au0.targets@.len() + 1
    &&& au1.targets@.drop_last() == au0.targets@
    &&& buff_notice(au1.targets@.last(), v, buff_id)
}

/// Character `j` of player `i` is the character on cell `index`: the one
/// that the player on that cell, still in the battle, acts with.
pub open spec fn cell_cter_at(bd: BattleData, index: int, i: int, j: int) -> bool {
    let cells = bd.tile_map.map_cells@;
    let ps = bd.battle_player@;
    &&& 0 <= index < cells.len()
    &&& cells[index].user_id != 0
    &&& first_player(ps, cells[index].user_id, i)
    &&& player_alive(ps[i])
    &&& first_cter(ps[i].cters@, ps[i].current_cter.0, j)
}

/// Whether some character stands on cell `index` (see `cell_cter_at`).
pub open spec fn cell_has_cter(bd: BattleData, index: int) -> bool {
    exists|i: int, j: int| #[trigger] cell_cter_at(bd, index, i, j)
}

proof fn lemma_cell_cter_unique(bd: BattleData, index: int, i: int, j: int, a: int, b: int)
    requires
        cell_cter_at(bd, index, i, j),
        cell_cter_at(bd, index, a, b),
    ensures
        i == a && j == b,
{
    let ps = bd.battle_player@;
    let uid = bd.tile_map.map_cells@[index].user_id;
    crate::battle::lemma_first_player_unique(ps, uid, i, a);
    let cs = ps[i].cters@;
    let id = ps[i].current_cter.0;
    if j < b {
        assert(cs[j].base_attr.cter_id != id);
    } else if b < j {
        assert(cs[b].base_attr.cter_id != id);
    }
}

/// Where the character on cell `index` is (see `cell_cter_at`).
fn locate_cell_cter(bd: &BattleData, index: usize) -> (r: Option<(usize, usize)>)
    ensures
        r is None <==> !cell_has_cter(*bd, index as int),
        r matches Some(l) ==> cell_cter_at(*bd, index as int, l.0 as int, l.1 as int),
{
    if index >= bd.tile_map.map_cells.len() {
        return None;
    }
    let uid = bd.tile_map.map_cells[index].user_id;
    if uid == 0 {
        return None;
    }
    let ghost ps = bd.battle_player@;
    let i = match crate::battle::player_position(&bd.battle_player, uid) {
        Some(i) => i,
        None => {
            proof {
                if cell_has_cter(*bd, index as int) {
                    let (a, b) = choose|a: int, b: int| #[trigger] cell_cter_at(*bd, index as int, a, b);
                    assert(ps[a].user_id == uid);
                }
            }
            return None;
        },
    };
    if bd.battle_player[i].is_died() {
        proof {
            if cell_has_cter(*bd, index as int) {
                let (a, b) = choose|a: int, b: int| #[trigger] cell_cter_at(*bd, index as int, a, b);
                crate::battle::lemma_first_player_unique(ps, uid, i as int, a);
            }
        }
        return None;
    }
    match crate::battle_player::cter_position(&bd.battle_player[i].cters, bd.battle_player[i].current_cter.0) {
        Some(j) => {
            proof {
                assert(cell_cter_at(*bd, index as int, i as int, j as int));
            }
            Some((i, j))
        },
        None => {
            proof {
                if cell_has_cter(*bd, index as int) {
                    let (a, b) = choose|a: int, b: int| #[trigger] cell_cter_at(*bd, index as int, a, b);
                    crate::battle::lemma_first_player_unique(ps, uid, i as int, a);
                    assert(ps[a].cters@[b].base_attr.cter_id == ps[a].current_cter.0);
                }
            }
            None
        },
    }
}

/// `ps1` is `ps0` with character `j` of player `i` made `c`.
pub open spec fn cter_set(ps0: Seq<BattlePlayer>, ps1: Seq<BattlePlayer>, i: int, j: int, c: BattleCharacter) -> bool {
    &&& 0 <= i < ps0.len()
    &&& 0 <= j < ps0[i].cters@.len()
    &&& ps1 == ps0.update(i, BattlePlayer { cters: ps1[i].cters, ..ps0[i] })
    &&& ps1[i].cters@ == ps0[i].cters@.update(j, c)
}

/// `c1` is `c0` with its first skill `skill_id` made active, where it
/// holds one; nothing else changes.
pub open spec fn skill_activated(c0: BattleCharacter, c1: BattleCharacter, skill_id: u32) -> bool {
    &&& c1 == (BattleCharacter { skills: c1.skills, ..c0 })
    &&& !has_skill_id(c0.skills@, skill_id) ==> c1.skills@ == c0.skills@
    &&& forall|k: int| #[trigger] first_skill_with_id(c0.skills@, skill_id, k)
        ==> c1.skills@ == c0.skills@.update(k, Skill { is_active: true, ..c0.skills@[k] })
}

/// Gives character `j` of player `i` a buff (see `BattleCharacter::add_buff`).
fn buff_cter_at(bd: &mut BattleData, i: usize, j: usize, from_cter: Option<u32>, from_skill: Option<u32>,
    temp: BuffTemp, scope: Vec<Direction>, turn_index: Option<usize>)
    requires
        i < old(bd).battle_player@.len(),
        j < old(bd).battle_player@[i as int].cters@.len(),
        stack_can_grow(old(bd).battle_player@[i as int].cters@[j as int].battle_buffs.add_damage_buffs@, temp.id),
        stack_can_grow(old(bd).battle_player@[i as int].cters@[j as int].battle_buffs.sub_damage_buffs@, temp.id),
    ensures
        cter_set(old(bd).battle_player@, final(bd).battle_player@, i as int, j as int,
            final(bd).battle_player@[i as int].cters@[j as int]),
        cter_buff_added(old(bd).battle_player@[i as int].cters@[j as int], final(bd).battle_player@[i as int].cters@[j as int],
            from_cter, from_skill, temp, scope@, turn_index),
        *final(bd) == (BattleData { battle_player: final(bd).battle_player, ..*old(bd) }),
{
    let ghost ps0 = bd.battle_player@;
    let ghost sc = scope@;
    let mut p = bd.battle_player.remove(i);
    let mut c = p.cters.remove(j);
    c.add_buff(from_cter, from_skill, temp, scope, turn_index);
    p.cters.insert(j, c);
    bd.battle_player.insert(i, p);
    proof {
        let ps1 = bd.battle_player@;
        assert(ps1 =~= ps0.update(i as int, ps1[i as int]));
        assert(ps1[i as int].cters@ =~= ps0[i as int].cters@.update(j as int, ps1[i as int].cters@[j as int]));
    }
}

/// Makes the first skill `skill_id` of character `j` of player `i` active.
fn activate_skill_at(bd: &mut BattleData, i: usize, j: usize, skill_id: u32)
    requires
        i < old(bd).battle_player@.len(),
        j < old(bd).battle_player@[i as int].cters@.len(),
    ensures
        cter_set(old(bd).battle_player@, final(bd).battle_player@, i as int, j as int,
            final(bd).battle_player@[i as int].cters@[j as int]),
        skill_activated(old(bd).battle_player@[i as int].cters@[j as int], final(bd).battle_player@[i as int].cters@[j as int],
            skill_id),
        *final(bd) == (BattleData { battle_player: final(bd).battle_player, ..*old(bd) }),
{
    let ghost ps0 = bd.battle_player@;
    let ghost c0 = ps0[i as int].cters@[j as int];
    let mut p = bd.battle_player.remove(i);
    let mut c = p.cters.remove(j);
    match skill_position(&c.skills, skill_id) {
        Some(k) => {
            let mut s = c.skills.remove(k);
            s.is_active = true;
            c.skills.insert(k, s);
            proof {
                assert(c.skills@ =~= c0.skills@.update(k as int, Skill { is_active: true, ..c0.skills@[k as int] }));
                assert forall|q: int| #[trigger] first_skill_with_id(c0.skills@, skill_id, q) implies q == k as int by {
                    if q < k {
                        assert(c0.skills@[q].id != skill_id);
                    } else if q > k {
                        assert(c0.skills@[k as int].id != skill_id);
                    }
                }
            }
        },
        None => {},
    }
    p.cters.insert(j, c);
    bd.battle_player.insert(i, p);
    proof {
        let ps1 = bd.battle_player@;
        assert(ps1 =~= ps0.update(i as int, ps1[i as int]));
        assert(ps1[i as int].cters@ =~= ps0[i as int].cters@.update(j as int, ps1[i as int].cters@[j as int]));
    }
}

/// Puts a buff on a cell's list, taking the place of the first buff with
/// the same id where there is one.
fn put_buff(v: &mut Vec<Buff>, b: Buff)
    ensures
        has_buff_id(old(v)@, b.id) ==> exists|p: int| #[trigger] first_buff_with_id(old(v)@, b.id, p)
            && final(v)@ == old(v)@.update(p, b),
        !has_buff_id(old(v)@, b.id) ==> final(v)@ == old(v)@.push(b),
{
    match buff_position(v, b.id) {
        Some(p) => {
            v.set(p, b);
        },
        None => {
            v.push(b);
        },
    }
}

/// Who can see the buff a skill puts on a cell: nobody unless it is a trap
/// (its function is one of `TRAPS`); the caster's player `user_id` where
/// the skill shows its target to the caster alone, else every player.
pub open spec fn cell_buff_viewers(ps: Seq<BattlePlayer>, fid: u32, view_self: bool, user_id: u32) -> Seq<u32> {
    if !TRAPS@.contains(fid) {
        Seq::empty()
    } else if view_self {
        seq![user_id]
    } else {
        Seq::new(ps.len(), |k: int| ps[k].user_id)
    }
}

/// Where a buff with id `id` goes on the list `b0`: in place of the first
/// one with that id, else last.
pub open spec fn buff_slot(b0: Seq<Buff>, id: u32) -> int {
    if has_buff_id(b0, id) { choose|p: int| first_buff_with_id(b0, id, p) } else { b0.len() as int }
}

/// The cells `c1` after the cell at `index` in `c0` took a buff in its
/// slot (see `buff_slot`): the buff the skill makes of `temp` (see
/// `new_buff`), which `viewers` may see. Nothing else changes.
pub open spec fn cell_buff_put(c0: Seq<MapCell>, c1: Seq<MapCell>, index: int, temp: BuffTemp, scope: Seq<Direction>,
    turn_index: usize, cter_id: u32, skill_id: u32, viewers: Seq<u32>) -> bool {
    let b0 = c0[index].buffs@;
    let b1 = c1[index].buffs@;
    let p = buff_slot(b0, temp.id);
    &&& c1 == c0.update(index, MapCell { buffs: c1[index].buffs, ..c0[index] })
    &&& if has_buff_id(b0, temp.id) { b1 == b0.update(p, b1[p]) } else { b1.drop_last() == b0 && b1.len() == b0.len() + 1 }
    &&& new_buff(b1[p], temp, scope, Some(turn_index), Some(cter_id), Some(skill_id))
    &&& b1[p].trap_view_users@ == viewers
}

/// The skill that puts a buff (`skill_temp` is the skill's configuration,
/// `buff_temp` that of its buff and `buff_scope` the buff's scope):
/// character `cter_id` casts it on the targets `target_array`.
///
/// It is refused, with `None` and nothing changed, where the caster has
/// died, where the skill's target is not the caster and `target_array` is
/// empty, and where it names a character on a cell (`AnyEnemyCter`) and no
/// character stands on cell `target_array[0]` (see `cell_cter_at`).
/// Otherwise, by the kind of target:
/// - the caster itself: it gets the buff (see `cter_buff_added`) and `au`
///   a notice of the caster's cell with the buff;
/// - `AnyEnemyCter`: the character on the cell gets the buff and `au` a
///   notice of that cell;
/// - a cell (see `buff_on_cell`): the cell gets a new buff in place of one
///   with the same id (see `cell_buff_put`); where the skill is shown to
///   its caster alone the notice goes, as an action of its own, to the
///   caster's player only, else it goes to `au`;
/// - any other kind: no buff.
/// In every case the caster's skill becomes active (see `skill_activated`).
pub fn add_buff(
    battle_data: &mut BattleData,
    cter_id: u32,
    skill_temp: &SkillTemp,
    buff_temp: &BuffTemp,
    buff_scope: Vec<Direction>,
    target_array: Vec<u32>,
    au: &mut ActionUnitPt,
) -> (r: Option<Vec<(u32, ActionUnitPt)>>)
    requires
        cter_found(old(battle_data).battle_player@, cter_id),
        skill_temp.target < 28,
        skill_temp.view_target < 28,
        !HURT_SELF_ADD_BUFF@.contains(skill_temp.function_id),
        skill_temp.function_id != SUB_MAX_MOVE_POINT,
        forall|i: int, j: int| 0 <= i < old(battle_data).battle_player@.len() && 0 <= j < old(battle_data).battle_player@[i].cters@.len()
            ==> stack_can_grow(#[trigger] old(battle_data).battle_player@[i].cters@[j].battle_buffs.add_damage_buffs@, buff_temp.id)
            && stack_can_grow(old(battle_data).battle_player@[i].cters@[j].battle_buffs.sub_damage_buffs@, buff_temp.id),
        ({
            let t = TargetType::from_code(skill_temp.target as u8);
            buff_on_cell(t) && target_array@.len() > 0 ==> target_array@[0] < old(battle_data).tile_map.map_cells@.len()
        }),
    ensures
        ({
            let bd0 = *old(battle_data);
            let bd1 = *final(battle_data);
            let ps0 = bd0.battle_player@;
            let ps1 = bd1.battle_player@;
            let (ci, cj) = cter_loc(ps0, cter_id);
            let caster = ps0[ci].cters@[cj];
            let user_id = ps0[ci].user_id;
            let skill_id = skill_temp.id;
            let buff_id = buff_temp.id;
            let t = TargetType::from_code(skill_temp.target as u8);
            let index = if target_array@.len() > 0 { target_array@[0] as int } else { 0 };
            if caster.state == BattleCterState::Died || (t != TargetType::PlayerSelf && target_array@.len() == 0)
                || (t == TargetType::AnyEnemyCter && !cell_has_cter(bd0, index)) {
                r is None && bd1 == bd0 && *final(au) == *old(au)
            } else {
                &&& r is Some
                &&& bd1 == (BattleData { battle_player: bd1.battle_player, tile_map: TileMap { map_cells: bd1.tile_map.map_cells, ..bd0.tile_map }, ..bd0 })
                &&& if t == TargetType::PlayerSelf || t == TargetType::AnyEnemyCter {
                    let (ti, tj) = if t == TargetType::PlayerSelf { (ci, cj) } else {
                        choose|i: int, j: int| #[trigger] cell_cter_at(bd0, index, i, j)
                    };
                    let v = if t == TargetType::PlayerSelf { caster.get_map_cell_index_spec() as u32 } else { index as u32 };
                    &&& buffed_then_activated(ps0, ps1, ti, tj, ci, cj, cter_id, skill_id, *buff_temp, buff_scope@, bd0.next_turn_index)
                    &&& bd1.tile_map.map_cells@ == bd0.tile_map.map_cells@
                    &&& r.unwrap()@.len() == 0
                    &&& notice_added(*old(au), *final(au), v, buff_id)
                } else {
                    &&& cter_set(ps0, ps1, ci, cj, ps1[ci].cters@[cj])
                    &&& skill_activated(caster, ps1[ci].cters@[cj], skill_id)
                    &&& if buff_on_cell(t) {
                        let view_self = skill_temp.view_target == TargetType::PlayerSelf.code();
                        &&& cell_buff_put(bd0.tile_map.map_cells@, bd1.tile_map.map_cells@, index, *buff_temp, buff_scope@,
                            bd0.next_turn_index, cter_id, skill_id, cell_buff_viewers(ps0, buff_temp.function_id, view_self, user_id))
                        &&& if view_self {
                            let v = r.unwrap()@;
                            &&& *final(au) == *old(au)
                            &&& v.len() == 1
                            &&& v[0].0 == user_id
                            &&& v[0].1.from_user == cter_id
                            &&& v[0].1.action_type == ActionType::Skill.code()
                            &&& v[0].1.action_value@ == seq![skill_id]
                            &&& v[0].1.targets@.len() == 1
                            &&& buff_notice(v[0].1.targets@[0], index as u32, buff_id)
                        } else {
                            &&& r.unwrap()@.len() == 0
                            &&& notice_added(*old(au), *final(au), index as u32, buff_id)
                        }
                    } else {
                        &&& bd1.tile_map.map_cells@ == bd0.tile_map.map_cells@
                        &&& r.unwrap()@.len() == 0
                        &&& *final(au) == *old(au)
                    }
                }
            }
        }),
{
    let ghost bd0 = *battle_data;
    let ghost ps0 = battle_data.battle_player@;
    let ghost au0 = *au;
    let (ci, cj) = locate_cter(battle_data, cter_id).unwrap();
    proof {
        let (a, b) = cter_loc(ps0, cter_id);
        lemma_first_cter_at_unique(ps0, cter_id, ci as int, cj as int, a, b);
    }
    if battle_data.battle_player[ci].cters[cj].state == BattleCterState::Died {
        return None;
    }
    let user_id = battle_data.battle_player[ci].user_id;
    let turn_index = battle_data.next_turn_index;
    let cter_index = battle_data.battle_player[ci].cters[cj].get_map_cell_index();
    let skill_id = skill_temp.id;
    let buff_id = buff_temp.id;
    let target_type = TargetType::try_from_u8(skill_temp.target as u8).unwrap();
    let view_self = skill_temp.view_target == TargetType::PlayerSelf.into_u8();
    let ghost sc = buff_scope@;
    let ghost mut mid = ps0;
    let ghost mut tloc: (int, int) = (ci as int, cj as int);
    let mut au_vec: Vec<(u32, ActionUnitPt)> = Vec::new();
    let mut index: usize = 0;
    if target_type != TargetType::PlayerSelf {
        if target_array.len() == 0 {
            return None;
        }
        index = target_array[0] as usize;
    }
    match target_type {
        TargetType::PlayerSelf => {
            assert(stack_can_grow(ps0[ci as int].cters@[cj as int].battle_buffs.add_damage_buffs@, buff_temp.id));
            buff_cter_at(battle_data, ci, cj, Some(cter_id), Some(skill_id), *buff_temp, buff_scope, Some(turn_index));
            proof {
                mid = battle_data.battle_player@;
            }
            au.targets.push(new_buff_notice(cter_index as u32, buff_id));
            proof {
                assert(au.targets@.drop_last() =~= au0.targets@);
            }
        },
        TargetType::AnyEnemyCter => {
            let (ti, tj) = match locate_cell_cter(battle_data, index) {
                Some(l) => l,
                None => return None,
            };
            proof {
                let (a, b) = choose|i: int, j: int| #[trigger] cell_cter_at(bd0, index as int, i, j);
                lemma_cell_cter_unique(bd0, index as int, ti as int, tj as int, a, b);
            }
            assert(stack_can_grow(ps0[ti as int].cters@[tj as int].battle_buffs.add_damage_buffs@, buff_temp.id));
            buff_cter_at(battle_data, ti, tj, Some(cter_id), Some(skill_id), *buff_temp, buff_scope, Some(turn_index));
            proof {
                mid = battle_data.battle_player@;
                tloc = (ti as int, tj as int);
            }
            au.targets.push(new_buff_notice(index as u32, buff_id));
            proof {
                assert(au.targets@.drop_last() =~= au0.targets@);
            }
        },
        TargetType::MapCell | TargetType::UnOpenMapCell | TargetType::UnPairMapCell | TargetType::NullMapCell
        | TargetType::UnPairNullMapCell | TargetType::OpenedMapCell | TargetType::UnOpenMapCellAndUnLock
        | TargetType::UnLockNullMapCell => {
            let mut buff = Buff::new(*buff_temp, buff_scope, Some(turn_index), Some(cter_id), Some(skill_id));
            let is_trap = contains_u32(&TRAPS, buff_temp.function_id);
            let tp = new_buff_notice(index as u32, buff_id);
            if view_self {
                let mut au_pt = build_action_unit_pt(cter_id, ActionType::Skill, skill_id);
                au_pt.targets.push(tp);
                au_vec.push((user_id, au_pt));
                if is_trap {
                    buff.trap_view_users.push(user_id);
                    assert(buff.trap_view_users@ =~= seq![user_id]);
                }
            } else {
                au.targets.push(tp);
                proof {
                    assert(au.targets@.drop_last() =~= au0.targets@);
                }
                if is_trap {
                    buff.trap_view_users = battle_data.get_battle_players_vec();
                    assert(buff.trap_view_users@ =~= Seq::new(ps0.len(), |k: int| ps0[k].user_id));
                }
            }
            assert(buff.trap_view_users@ == cell_buff_viewers(ps0, buff_temp.function_id, view_self, user_id));
            assert(new_buff(buff, *buff_temp, sc, Some(turn_index), Some(cter_id), Some(skill_id)));
            let ghost cells0 = battle_data.tile_map.map_cells@;
            let ghost bb = buff;
            put_buff(&mut battle_data.tile_map.map_cells[index].buffs, buff);
            proof {
                let c1 = battle_data.tile_map.map_cells@;
                let b0 = cells0[index as int].buffs@;
                let b1 = c1[index as int].buffs@;
                assert(c1 =~= cells0.update(index as int, MapCell { buffs: c1[index as int].buffs, ..cells0[index as int] }));
                if has_buff_id(b0, buff_id) {
                    let p = choose|p: int| #[trigger] first_buff_with_id(b0, buff_id, p) && b1 == b0.update(p, bb);
                    let q = buff_slot(b0, buff_id);
                    assert(first_buff_with_id(b0, buff_id, q));
                    if p < q {
                        assert(b0[p].id != buff_id);
                    } else if q < p {
                        assert(b0[q].id != buff_id);
                    }
                    assert(b1[p] == bb);
                    assert(b1 == b0.update(p, b1[p]));
                } else {
                    assert(b1 == b0.push(bb));
                    assert(b1.drop_last() =~= b0);
                    assert(b1[b0.len() as int] == bb);
                }
                assert(cell_buff_put(cells0, c1, index as int, *buff_temp, sc, turn_index, cter_id, skill_id,
                    cell_buff_viewers(ps0, buff_temp.function_id, view_self, user_id)));
            }
        },
        _ => {},
    }
    let ghost before_activate = battle_data.battle_player@;
    activate_skill_at(battle_data, ci, cj, skill_id);
    proof {
        if target_type == TargetType::PlayerSelf || target_type == TargetType::AnyEnemyCter {
            assert(cter_set(ps0, mid, tloc.0, tloc.1, mid[tloc.0].cters@[tloc.1]));
        } else {
            assert(before_activate == ps0);
        }
    }
    Some(au_vec)
}

/// A notice that cell `v` got buff `buff_id`.
fn new_buff_notice(v: u32, buff_id: u32) -> (r: TargetPt)
    ensures
        buff_notice(r, v, buff_id),
{
    let mut tp = TargetPt { target_value: Vec::new(), effects: Vec::new(), passive_effect: Vec::new(), add_buffs: Vec::new() };
    tp.target_value.push(v);
    tp.add_buffs.push(buff_id);
    assert(tp.target_value@ =~= seq![v]);
    assert(tp.add_buffs@ =~= seq![buff_id]);
    tp
}

/// `ps1` is `ps0` after character `tj` of player `ti` got a buff (see
/// `cter_buff_added`) and then the skill `skill_id` of character `cj` of
/// player `ci` became active (see `skill_activated`).
pub open spec fn buffed_then_activated(ps0: Seq<BattlePlayer>, ps1: Seq<BattlePlayer>, ti: int, tj: int, ci: int, cj: int,
    cter_id: u32, skill_id: u32, temp: BuffTemp, scope: Seq<Direction>, turn_index: usize) -> bool {
    exists|mid: Seq<BattlePlayer>| {
        &&& #[trigger] cter_set(ps0, mid, ti, tj, mid[ti].cters@[tj])
        &&& cter_buff_added(ps0[ti].cters@[tj], mid[ti].cters@[tj], Some(cter_id), Some(skill_id), temp, scope, Some(turn_index))
        &&& cter_set(mid, ps1, ci, cj, ps1[ci].cters@[cj])
        &&& skill_activated(mid[ci].cters@[cj], ps1[ci].cters@[cj], skill_id)
    }
}

} // verus!
