//! How a robot player picks the cells its skills aim at.

use vstd::prelude::*;
use crate::battle::{BattleData, has_player, player_alive, player_of, alive_count};
use crate::battle_handler::check_skill_useable;
use crate::battle_enum::AttackState;
use crate::battle_cter::BattleCharacter;
use crate::battle_skill::Skill;
use crate::battle_enum::{BattleCterState, TargetType};
use crate::battle_helper::{SkillJudgeTemp, judge_result, current_cter_of, scope_walk, scope_coords, scope_step, Coord2d, all_cters, first_cter_in, lemma_all_cters_next, SkillScopeTemp, scope_result, scope_wf, targets_view};
use crate::battle_player::{BattlePlayer, RobotData, first_cter, has_cter};
use crate::robot::RememberCell;
use crate::battle_handler::has_buff_id;
use crate::buff_type::LOCKED;
use crate::map_data::{MapCell, MapCellType, TileMap, cell_at, has_cell_at, COORD_LIMIT};
use crate::outside::random_index;

verus! {

/// Outcome of comparing two lists in dictionary order.
#[derive(Debug, Clone, Copy, PartialEq, Eq, Structural)]
pub enum LexOrder {
    Less,
    Equal,
    Greater,
}

/// The first `k` items of `a` and `b` are the same.
pub open spec fn prefix_eq(a: Seq<usize>, b: Seq<usize>, k: int) -> bool {
    forall|i: int| 0 <= i < k ==> #[trigger] a[i] == b[i]
}

/// `a` comes before `b` in dictionary order, and `k` is where they part:
/// either `a` ends there and `b` goes on, or both go on and `a` has the
/// smaller item there.
pub open spec fn lex_lt_at(a: Seq<usize>, b: Seq<usize>, k: int) -> bool {
    &&& 0 <= k <= a.len()
    &&& k <= b.len()
    &&& prefix_eq(a, b, k)
    &&& ((k == a.len() && k < b.len()) || (k < a.len() && k < b.len() && a[k] < b[k]))
}

/// `a` comes strictly before `b` in dictionary order (the order of `Vec`).
pub open spec fn lex_lt(a: Seq<usize>, b: Seq<usize>) -> bool {
    exists|k: int| #[trigger] lex_lt_at(a, b, k)
}

/// `a` comes before `b` in dictionary order, or is `b`.
pub open spec fn lex_le(a: Seq<usize>, b: Seq<usize>) -> bool {
    lex_lt(a, b) || a == b
}

/// `v` is a greatest list of `s` in dictionary order.
pub open spec fn is_lex_max(s: Seq<Seq<usize>>, v: Seq<usize>) -> bool {
    &&& exists|j: int| 0 <= j < s.len() && #[trigger] s[j] == v
    &&& forall|j: int| 0 <= j < s.len() ==> lex_le(#[trigger] s[j], v)
}

/// `r` is what a search for the greatest of `areas` answers: none where
/// there are no areas, else a greatest one.
pub open spec fn lex_pick(areas: Seq<Seq<usize>>, r: Option<Seq<usize>>) -> bool {
    match r {
        None => areas.len() == 0,
        Some(v) => is_lex_max(areas, v),
    }
}

/// `v` is one of `s` hitting the most cells.
pub open spec fn is_most_hits(s: Seq<Seq<usize>>, v: Seq<usize>) -> bool {
    &&& exists|j: int| 0 <= j < s.len() && #[trigger] s[j] == v
    &&& forall|j: int| 0 <= j < s.len() ==> (#[trigger] s[j]).len() <= v.len()
}

/// `r` is what a search for the area hitting the most cells answers: none
/// where there are no areas, else one hitting the most.
pub open spec fn most_pick(areas: Seq<Seq<usize>>, r: Option<Seq<usize>>) -> bool {
    match r {
        None => areas.len() == 0,
        Some(v) => is_most_hits(areas, v),
    }
}

/// The view of an optional list of cells.
pub open spec fn opt_cells(r: Option<Vec<usize>>) -> Option<Seq<usize>> {
    match r {
        Some(v) => Some(v@),
        None => None,
    }
}

/// Dictionary order is transitive.
pub proof fn lemma_lex_lt_transitive(a: Seq<usize>, b: Seq<usize>, c: Seq<usize>)
    requires
        lex_lt(a, b),
        lex_lt(b, c),
    ensures
        lex_lt(a, c),
{
    let k1 = choose|k: int| lex_lt_at(a, b, k);
    let k2 = choose|k: int| lex_lt_at(b, c, k);
    if k1 <= k2 {
        assert(prefix_eq(a, c, k1)) by {
            assert forall|i: int| 0 <= i < k1 implies #[trigger] a[i] == c[i] by {
                assert(a[i] == b[i]);
                assert(b[i] == c[i]);
            }
        }
        if k1 < k2 {
            if k1 < a.len() {
                assert(b[k1] == c[k1]);
            }
        }
        assert(lex_lt_at(a, c, k1));
    } else {
        assert(prefix_eq(a, c, k2)) by {
            assert forall|i: int| 0 <= i < k2 implies #[trigger] a[i] == c[i] by {
                assert(a[i] == b[i]);
                assert(b[i] == c[i]);
            }
        }
        assert(a[k2] == b[k2]);
        assert(lex_lt_at(a, c, k2));
    }
}

/// Nothing comes before itself, and of two lists at most one comes first.
pub proof fn lemma_lex_lt_asymmetric(a: Seq<usize>, b: Seq<usize>)
    ensures
        !lex_lt(a, a),
        lex_lt(a, b) ==> !lex_lt(b, a),
{
    if lex_lt(a, a) {
        let k = choose|k: int| lex_lt_at(a, a, k);
        assert(lex_lt_at(a, a, k));
    }
    if lex_lt(a, b) && lex_lt(b, a) {
        let k1 = choose|k: int| lex_lt_at(a, b, k);
        let k2 = choose|k: int| lex_lt_at(b, a, k);
        if k1 < k2 {
            assert(b[k1] == a[k1]);
        } else if k2 < k1 {
            assert(a[k2] == b[k2]);
        }
    }
}

/// Compares two lists in dictionary order, as `Vec` does.
pub fn lex_compare(a: &Vec<usize>, b: &Vec<usize>) -> (r: LexOrder)
    ensures
        (r == LexOrder::Less) <==> lex_lt(a@, b@),
        (r == LexOrder::Equal) <==> a@ == b@,
        (r == LexOrder::Greater) <==> lex_lt(b@, a@),
{
    proof {
        lemma_lex_lt_asymmetric(a@, b@);
        lemma_lex_lt_asymmetric(b@, a@);
    }
    let mut i: usize = 0;
    while i < a.len() && i < b.len()
        invariant
            i <= a@.len(),
            i <= b@.len(),
            prefix_eq(a@, b@, i as int),
        decreases a.len() - i,
    {
        if a[i] < b[i] {
            assert(lex_lt_at(a@, b@, i as int));
            return LexOrder::Less;
        }
        if a[i] > b[i] {
            assert(lex_lt_at(b@, a@, i as int));
            return LexOrder::Greater;
        }
        i = i + 1;
    }
    if a.len() < b.len() {
        assert(lex_lt_at(a@, b@, i as int));
        LexOrder::Less
    } else if a.len() > b.len() {
        assert(lex_lt_at(b@, a@, i as int));
        LexOrder::Greater
    } else {
        assert(a@ =~= b@);
        LexOrder::Equal
    }
}

/// Keeps the greater of a running greatest list and a new one.
fn keep_greater(best: Option<Vec<usize>>, v: Vec<usize>, Ghost(seen): Ghost<Seq<Seq<usize>>>) -> (r: Option<Vec<usize>>)
    requires
        best is None <==> seen.len() == 0,
        best matches Some(b) ==> is_lex_max(seen, b@),
    ensures
        r matches Some(b) && is_lex_max(seen.push(v@), b@),
{
    let ghost s2 = seen.push(v@);
    match best {
        None => {
            assert(s2[0] == v@);
            Some(v)
        },
        Some(b) => {
            match lex_compare(&b, &v) {
                LexOrder::Less => {
                    proof {
                        assert(s2[seen.len() as int] == v@);
                        assert forall|j: int| 0 <= j < s2.len() implies lex_le(#[trigger] s2[j], v@) by {
                            if j < seen.len() {
                                assert(s2[j] == seen[j]);
                                assert(lex_le(seen[j], b@));
                                if seen[j] != b@ {
                                    lemma_lex_lt_transitive(seen[j], b@, v@);
                                }
                            }
                        }
                    }
                    Some(v)
                },
                _ => {
                    proof {
                        let j0 = choose|j: int| 0 <= j < seen.len() && #[trigger] seen[j] == b@;
                        assert(s2[j0] == b@);
                        assert forall|j: int| 0 <= j < s2.len() implies lex_le(#[trigger] s2[j], b@) by {
                            if j < seen.len() {
                                assert(s2[j] == seen[j]);
                            }
                        }
                    }
                    Some(b)
                },
            }
        },
    }
}

/// Keeps the running area hitting the most cells, or the new one where it
/// hits more.
fn keep_longer(best: Option<Vec<usize>>, v: Vec<usize>, Ghost(seen): Ghost<Seq<Seq<usize>>>) -> (r: Option<Vec<usize>>)
    requires
        best is None <==> seen.len() == 0,
        best matches Some(b) ==> is_most_hits(seen, b@),
    ensures
        r matches Some(b) && is_most_hits(seen.push(v@), b@),
{
    let ghost s2 = seen.push(v@);
    match best {
        None => {
            assert(s2[0] == v@);
            Some(v)
        },
        Some(b) => {
            if b.len() < v.len() {
                proof {
                    assert(s2[seen.len() as int] == v@);
                    assert forall|j: int| 0 <= j < s2.len() implies (#[trigger] s2[j]).len() <= v@.len() by {
                        if j < seen.len() {
                            assert(s2[j] == seen[j]);
                        }
                    }
                }
                Some(v)
            } else {
                proof {
                    let j0 = choose|j: int| 0 <= j < seen.len() && #[trigger] seen[j] == b@;
                    assert(s2[j0] == b@);
                    assert forall|j: int| 0 <= j < s2.len() implies (#[trigger] s2[j]).len() <= b@.len() by {
                        if j < seen.len() {
                            assert(s2[j] == seen[j]);
                        }
                    }
                }
                Some(b)
            }
        },
    }
}

/// Whether cell `i` holds a player still in the battle who is not of team
/// `team_id` (of any team where none is given).
pub open spec fn enemy_at(bd: BattleData, i: int, team_id: Option<u8>) -> bool {
    let uid = bd.tile_map.map_cells@[i].user_id;
    &&& uid != 0
    &&& has_player(bd.battle_player@, uid)
    &&& player_alive(player_of(bd.battle_player@, uid))
    &&& !(team_id matches Some(t) && player_of(bd.battle_player@, uid).team_id == t)
}

/// The cell at coordinates `(x, y)`, if it holds an enemy (see `enemy_at`).
pub open spec fn enemy_hit(bd: BattleData, x: int, y: int, team_id: Option<u8>) -> Option<usize> {
    let cells = bd.tile_map.map_cells@;
    if has_cell_at(cells, x, y) {
        let i = choose|i: int| cell_at(cells, x, y, i);
        if enemy_at(bd, i, team_id) {
            Some(cells[i].index)
        } else {
            None
        }
    } else {
        None
    }
}

/// `s` with `o` added at the end where `o` holds a value.
pub open spec fn push_some(s: Seq<usize>, o: Option<usize>) -> Seq<usize> {
    match o {
        Some(v) => s.push(v),
        None => s,
    }
}

/// Offset of the neighbour in direction `d` of the six around a cell.
pub open spec fn ring_offset(d: int) -> (int, int) {
    if d == 0 {
        (-1, 1)
    } else if d == 1 {
        (0, 1)
    } else if d == 2 {
        (1, 0)
    } else if d == 3 {
        (1, -1)
    } else if d == 4 {
        (0, -1)
    } else {
        (-1, 0)
    }
}

/// Offset of the neighbour in direction `d` of the three of a triangle.
pub open spec fn triangle_offset(d: int) -> (int, int) {
    if d == 0 {
        (-1, 1)
    } else if d == 1 {
        (-1, 0)
    } else {
        (0, -1)
    }
}

/// The enemies among the first `d` neighbours of the six around `(x, y)`.
pub open spec fn ring_hits(bd: BattleData, x: int, y: int, team_id: Option<u8>, d: nat) -> Seq<usize>
    decreases d,
{
    if d == 0 {
        Seq::empty()
    } else {
        let o = ring_offset(d - 1);
        push_some(ring_hits(bd, x, y, team_id, (d - 1) as nat), enemy_hit(bd, x + o.0, y + o.1, team_id))
    }
}

/// The enemies among the first `d` neighbours of the triangle at `(x, y)`.
pub open spec fn triangle_hits(bd: BattleData, x: int, y: int, team_id: Option<u8>, d: nat) -> Seq<usize>
    decreases d,
{
    if d == 0 {
        Seq::empty()
    } else {
        let o = triangle_offset(d - 1);
        push_some(triangle_hits(bd, x, y, team_id, (d - 1) as nat), enemy_hit(bd, x + o.0, y + o.1, team_id))
    }
}

/// The cells a round area centred on `c` would hit, or `None` where `c`
/// cannot be the centre: an unused slot, a world cell (when checked), a
/// locked cell (when checked), an opened or paired cell (when checked), a
/// cell someone stands on (when checked), or the cell of `cter_id`. The
/// centre comes first where someone stands on it, then the enemies round it.
pub open spec fn roundness_area(
    bd: BattleData,
    c: MapCell,
    cter_id: u32,
    is_check_null: bool,
    is_check_lock: bool,
    is_opened: bool,
    is_check_world_cell: bool,
    team_id: Option<u8>,
) -> Option<Seq<usize>> {
    if c.id <= 1 {
        None
    } else if is_check_world_cell && c.is_world {
        None
    } else if is_check_lock && has_buff_id(c.buffs@, LOCKED) {
        None
    } else if is_opened && (c.open_user > 0 || c.pair_index is Some) {
        None
    } else if is_check_null && c.user_id > 0 {
        None
    } else if c.user_id == cter_id {
        None
    } else {
        let centre: Seq<usize> = if c.user_id > 0 { seq![c.index] } else { Seq::empty() };
        Some(centre + ring_hits(bd, c.x as int, c.y as int, team_id, 6))
    }
}

/// The round areas of the first `n` cells, in map order.
pub open spec fn roundness_areas(
    bd: BattleData,
    cter_id: u32,
    is_check_null: bool,
    is_check_lock: bool,
    is_opened: bool,
    is_check_world_cell: bool,
    team_id: Option<u8>,
    n: nat,
) -> Seq<Seq<usize>>
    decreases n,
{
    if n == 0 {
        Seq::empty()
    } else {
        let prev = roundness_areas(bd, cter_id, is_check_null, is_check_lock, is_opened, is_check_world_cell, team_id, (n - 1) as nat);
        match roundness_area(bd, bd.tile_map.map_cells@[n - 1], cter_id, is_check_null, is_check_lock, is_opened, is_check_world_cell, team_id) {
            Some(v) => prev.push(v),
            None => prev,
        }
    }
}

/// The cells a triangle area centred on `c` would hit, or `None` for an
/// unused slot or the cell of `cter_id`: the centre first where someone
/// stands on it, then the enemies on the three corners.
pub open spec fn triangle_area(bd: BattleData, c: MapCell, cter_id: u32, team_id: Option<u8>) -> Option<Seq<usize>> {
    if c.id <= 1 {
        None
    } else if c.user_id == cter_id {
        None
    } else {
        let centre: Seq<usize> = if c.user_id > 0 { seq![c.index] } else { Seq::empty() };
        Some(centre + triangle_hits(bd, c.x as int, c.y as int, team_id, 3))
    }
}

/// The triangle areas of the first `n` cells, in map order.
pub open spec fn triangle_areas(bd: BattleData, cter_id: u32, team_id: Option<u8>, n: nat) -> Seq<Seq<usize>>
    decreases n,
{
    if n == 0 {
        Seq::empty()
    } else {
        let prev = triangle_areas(bd, cter_id, team_id, (n - 1) as nat);
        match triangle_area(bd, bd.tile_map.map_cells@[n - 1], cter_id, team_id) {
            Some(v) => prev.push(v),
            None => prev,
        }
    }
}

impl BattleData {
    /// The cell at coordinates `(x, y)`, if it holds an enemy: a player still
    /// in the battle, not of team `team_id`.
    pub fn enemy_cell_at(&self, x: isize, y: isize, team_id: Option<u8>) -> (r: Option<usize>)
        requires
            self.tile_map.wf(),
        ensures
            r == enemy_hit(*self, x as int, y as int, team_id),
    {
        let ghost cells = self.tile_map.map_cells@;
        match self.tile_map.coord_index(x, y) {
            None => None,
            Some(i) => {
                proof {
                    let k = choose|k: int| cell_at(cells, x as int, y as int, k);
                    if k != i as int {
                        if k < i {
                            assert(!(cells[k].x == cells[i as int].x && cells[k].y == cells[i as int].y));
                        } else {
                            assert(!(cells[i as int].x == cells[k].x && cells[i as int].y == cells[k].y));
                        }
                    }
                }
                let uid = self.tile_map.map_cells[i].user_id;
                if uid == 0 {
                    return None;
                }
                match self.get_battle_player(Some(uid), true) {
                    Err(_) => None,
                    Ok(p) => {
                        match team_id {
                            Some(t) => {
                                if p.team_id == t {
                                    return None;
                                }
                            },
                            None => {},
                        }
                        Some(self.tile_map.map_cells[i].index)
                    },
                }
            },
        }
    }

}

/// The best round area for a robot: over every cell that can be the
/// centre (see `roundness_area`), the hit list with the most cells (the
/// first such); `None` where no cell can be the centre.
pub fn get_roundness_aoe(
    cter_id: u32,
    battle_data: &BattleData,
    is_check_null: bool,
    is_check_lock: bool,
    is_opened: bool,
    is_check_world_cell: bool,
    team_id: Option<u8>,
) -> (r: Option<Vec<usize>>)
    requires
        battle_data.tile_map.wf(),
    ensures
        most_pick(roundness_areas(*battle_data, cter_id, is_check_null, is_check_lock, is_opened,
                is_check_world_cell, team_id, battle_data.tile_map.map_cells@.len()), opt_cells(r)),
{
    let ghost cells = battle_data.tile_map.map_cells@;
    let mut best: Option<Vec<usize>> = None;
    let mut i: usize = 0;
    while i < battle_data.tile_map.map_cells.len()
        invariant
            cells == battle_data.tile_map.map_cells@,
            battle_data.tile_map.wf(),
            i <= cells.len(),
            ({
                let seen = roundness_areas(*battle_data, cter_id, is_check_null, is_check_lock, is_opened,
                    is_check_world_cell, team_id, i as nat);
                &&& (best is None <==> seen.len() == 0)
                &&& (best matches Some(b) ==> is_most_hits(seen, b@))
            }),
        decreases cells.len() - i,
    {
        let ghost seen = roundness_areas(*battle_data, cter_id, is_check_null, is_check_lock, is_opened,
            is_check_world_cell, team_id, i as nat);
        let cell = &battle_data.tile_map.map_cells[i];
        let skip = cell.id <= 1
            || (is_check_world_cell && cell.is_world())
            || (is_check_lock && cell.check_is_locked())
            || (is_opened && (cell.open_user > 0 || cell.pair_index.is_some()))
            || (is_check_null && cell.user_id > 0)
            || cell.user_id == cter_id;
        if !skip {
            let mut v: Vec<usize> = Vec::new();
            if cell.user_id > 0 {
                v.push(cell.index);
            }
            let ghost centre = v@;
            let x = cell.x;
            let y = cell.y;
            assert(-COORD_LIMIT <= cells[i as int].x <= COORD_LIMIT);
            let mut d: usize = 0;
            while d < 6
                invariant
                    d <= 6,
                    -COORD_LIMIT <= x <= COORD_LIMIT,
                    -COORD_LIMIT <= y <= COORD_LIMIT,
                    battle_data.tile_map.wf(),
                    v@ == centre + ring_hits(*battle_data, x as int, y as int, team_id, d as nat),
                decreases 6 - d,
            {
                let (dx, dy): (isize, isize) = if d == 0 {
                    (-1, 1)
                } else if d == 1 {
                    (0, 1)
                } else if d == 2 {
                    (1, 0)
                } else if d == 3 {
                    (1, -1)
                } else if d == 4 {
                    (0, -1)
                } else {
                    (-1, 0)
                };
                assert((dx as int, dy as int) == ring_offset(d as int));
                let hit = battle_data.enemy_cell_at(x + dx, y + dy, team_id);
                match hit {
                    Some(h) => v.push(h),
                    None => {},
                }
                d = d + 1;
                proof {
                    let prev = ring_hits(*battle_data, x as int, y as int, team_id, (d - 1) as nat);
                    assert(ring_hits(*battle_data, x as int, y as int, team_id, d as nat)
                        == push_some(prev, enemy_hit(*battle_data, x + dx, y + dy, team_id)));
                    assert(v@ =~= centre + ring_hits(*battle_data, x as int, y as int, team_id, d as nat));
                }
            }
            assert(roundness_area(*battle_data, cells[i as int], cter_id, is_check_null, is_check_lock, is_opened,
                is_check_world_cell, team_id) == Some(v@));
            best = keep_longer(best, v, Ghost(seen));
        }
        i = i + 1;
    }
    best
}

/// The best triangle area for a robot: over every cell that can be the
/// centre (see `triangle_area`), the list of hit cells that is greatest
/// in dictionary order; `None` where no cell can be the centre.
pub fn get_triangle_aoe(cter_id: u32, battle_data: &BattleData, team_id: Option<u8>) -> (r: Option<Vec<usize>>)
    requires
        battle_data.tile_map.wf(),
    ensures
        lex_pick(triangle_areas(*battle_data, cter_id, team_id, battle_data.tile_map.map_cells@.len()), opt_cells(r)),
{
    let ghost cells = battle_data.tile_map.map_cells@;
    let mut best: Option<Vec<usize>> = None;
    let mut i: usize = 0;
    while i < battle_data.tile_map.map_cells.len()
        invariant
            cells == battle_data.tile_map.map_cells@,
            battle_data.tile_map.wf(),
            i <= cells.len(),
            ({
                let seen = triangle_areas(*battle_data, cter_id, team_id, i as nat);
                &&& (best is None <==> seen.len() == 0)
                &&& (best matches Some(b) ==> is_lex_max(seen, b@))
            }),
        decreases cells.len() - i,
    {
        let ghost seen = triangle_areas(*battle_data, cter_id, team_id, i as nat);
        let cell = &battle_data.tile_map.map_cells[i];
        if !(cell.id <= 1 || cell.user_id == cter_id) {
            let mut v: Vec<usize> = Vec::new();
            if cell.user_id > 0 {
                v.push(cell.index);
            }
            let ghost centre = v@;
            let x = cell.x;
            let y = cell.y;
            assert(-COORD_LIMIT <= cells[i as int].x <= COORD_LIMIT);
            let mut d: usize = 0;
            while d < 3
                invariant
                    d <= 3,
                    -COORD_LIMIT <= x <= COORD_LIMIT,
                    -COORD_LIMIT <= y <= COORD_LIMIT,
                    battle_data.tile_map.wf(),
                    v@ == centre + triangle_hits(*battle_data, x as int, y as int, team_id, d as nat),
                decreases 3 - d,
            {
                let (dx, dy): (isize, isize) = if d == 0 {
                    (-1, 1)
                } else if d == 1 {
                    (-1, 0)
                } else {
                    (0, -1)
                };
                assert((dx as int, dy as int) == triangle_offset(d as int));
                let hit = battle_data.enemy_cell_at(x + dx, y + dy, team_id);
                match hit {
                    Some(h) => v.push(h),
                    None => {},
                }
                d = d + 1;
                proof {
                    let prev = triangle_hits(*battle_data, x as int, y as int, team_id, (d - 1) as nat);
                    assert(triangle_hits(*battle_data, x as int, y as int, team_id, d as nat)
                        == push_some(prev, enemy_hit(*battle_data, x + dx, y + dy, team_id)));
                    assert(v@ =~= centre + triangle_hits(*battle_data, x as int, y as int, team_id, d as nat));
                }
            }
            assert(triangle_area(*battle_data, cells[i as int], cter_id, team_id) == Some(v@));
            best = keep_greater(best, v, Ghost(seen));
        }
        i = i + 1;
    }
    best
}

/// Offset of the `j`-th cell (of two) past the start of a line in direction
/// `dir`. Direction 3 stays on the start cell.
pub open spec fn line_step(dir: int, j: int) -> (int, int) {
    let n = j + 1;
    if dir == 0 {
        (-n, n)
    } else if dir == 1 {
        (0, n)
    } else if dir == 2 {
        (n, 0)
    } else if dir == 3 {
        (0, 0)
    } else if dir == 4 {
        (-n, 0)
    } else {
        (n, 0)
    }
}

/// A line `acc` (number of cells someone stands on, cells) after trying to
/// add the cell at coordinates `(x, y)`: it is added unless there is no such
/// cell, it is a world cell or not in use, `cter_id` stands on it, or it is
/// in the line already.
pub open spec fn extend_line(bd: BattleData, acc: (int, Seq<usize>), x: int, y: int, cter_id: u32) -> (int, Seq<usize>) {
    let cells = bd.tile_map.map_cells@;
    if !has_cell_at(cells, x, y) {
        acc
    } else {
        let c = cells[choose|i: int| cell_at(cells, x, y, i)];
        if c.is_world || c.cell_type != MapCellType::Valid || c.user_id == cter_id || acc.1.contains(c.index) {
            acc
        } else {
            (if c.user_id > 0 { acc.0 + 1 } else { acc.0 }, acc.1.push(c.index))
        }
    }
}

/// The line that starts at cell `s` and goes two cells in direction `dir`.
pub open spec fn line_from(bd: BattleData, s: int, dir: int, cter_id: u32) -> (int, Seq<usize>) {
    let c = bd.tile_map.map_cells@[s];
    let o1 = line_step(dir, 0);
    let o2 = line_step(dir, 1);
    let a1 = extend_line(bd, (1, seq![s as usize]), c.x + o1.0, c.y + o1.1, cter_id);
    extend_line(bd, a1, c.x + o2.0, c.y + o2.1, cter_id)
}

/// Whether a line may start at cell `c`: someone other than `cter_id` stands on it.
pub open spec fn is_line_start(c: MapCell, cter_id: u32) -> bool {
    c.user_id != 0 && c.user_id != cter_id
}

/// The lines from the first `n` cells: six for every start, in map order
/// and then in direction order.
pub open spec fn all_lines(bd: BattleData, cter_id: u32, n: nat) -> Seq<(int, Seq<usize>)>
    decreases n,
{
    if n == 0 {
        Seq::empty()
    } else {
        let prev = all_lines(bd, cter_id, (n - 1) as nat);
        if is_line_start(bd.tile_map.map_cells@[n - 1], cter_id) {
            prev + Seq::new(6, |d: int| line_from(bd, n - 1, d, cter_id))
        } else {
            prev
        }
    }
}

/// The view of a list of lines.
pub open spec fn lines_view(v: Seq<(u32, Vec<usize>)>) -> Seq<(int, Seq<usize>)> {
    v.map_values(|p: (u32, Vec<usize>)| (p.0 as int, p.1@))
}

/// The most cells someone stands on that a line of `lines` holds, of 3, 2 and 1.
pub open spec fn best_count(lines: Seq<(int, Seq<usize>)>) -> int {
    if exists|j: int| 0 <= j < lines.len() && #[trigger] lines[j].0 == 3 {
        3
    } else if exists|j: int| 0 <= j < lines.len() && #[trigger] lines[j].0 == 2 {
        2
    } else {
        1
    }
}

/// The cells of the lines of `lines` that hold `c` cells someone stands on, in order.
pub open spec fn group_of(lines: Seq<(int, Seq<usize>)>, c: int) -> Seq<Seq<usize>>
    decreases lines.len(),
{
    if lines.len() == 0 {
        Seq::empty()
    } else {
        let prev = group_of(lines.drop_last(), c);
        if lines.last().0 == c {
            prev.push(lines.last().1)
        } else {
            prev
        }
    }
}

/// The order in which a line is aimed at: its second cell, its start, then
/// its third cell, leaving out those it lacks.
pub open spec fn arranged(v: Seq<usize>) -> Seq<usize> {
    (if v.len() > 1 { seq![v[1]] } else { Seq::<usize>::empty() }) + seq![v[0]]
        + (if v.len() > 2 { seq![v[2]] } else { Seq::<usize>::empty() })
}

/// Whether `x` is in `v`.
fn contains_index(v: &Vec<usize>, x: usize) -> (r: bool)
    ensures
        r == v@.contains(x),
{
    let mut i: usize = 0;
    while i < v.len()
        invariant
            i <= v@.len(),
            forall|j: int| 0 <= j < i ==> v@[j] != x,
        decreases v.len() - i,
    {
        if v[i] == x {
            assert(v@[i as int] == x);
            return true;
        }
        i = i + 1;
    }
    false
}

/// A copy of a list of cells.
fn copy_indices(v: &Vec<usize>) -> (r: Vec<usize>)
    ensures
        r@ == v@,
{
    let mut out: Vec<usize> = Vec::new();
    let mut i: usize = 0;
    while i < v.len()
        invariant
            i <= v@.len(),
            out@ == v@.take(i as int),
        decreases v.len() - i,
    {
        out.push(v[i]);
        i = i + 1;
        assert(out@ =~= v@.take(i as int));
    }
    assert(v@.take(v@.len() as int) =~= v@);
    out
}

impl BattleData {
    /// Tries to add the cell at coordinates `(x, y)` to a line (see `extend_line`).
    fn extend_line_at(&self, count: &mut u32, line: &mut Vec<usize>, x: isize, y: isize, cter_id: u32)
        requires
            self.tile_map.wf(),
            *old(count) <= 2,
        ensures
            (*final(count) as int, final(line)@) == extend_line(*self, (*old(count) as int, old(line)@), x as int, y as int, cter_id),
    {
        match self.tile_map.coord_index(x, y) {
            None => {},
            Some(i) => {
                let ghost cells = self.tile_map.map_cells@;
                proof {
                    let k = choose|k: int| cell_at(cells, x as int, y as int, k);
                    if k != i as int {
                        if k < i {
                            assert(!(cells[k].x == cells[i as int].x && cells[k].y == cells[i as int].y));
                        } else {
                            assert(!(cells[i as int].x == cells[k].x && cells[i as int].y == cells[k].y));
                        }
                    }
                }
                let c = &self.tile_map.map_cells[i];
                if c.is_world() || c.cell_type != MapCellType::Valid || c.user_id == cter_id
                    || contains_index(line, c.index) {
                    return;
                }
                if c.user_id > 0 {
                    *count = *count + 1;
                }
                line.push(c.index);
            },
        }
    }

    /// The line from cell `s` in direction `dir` (see `line_from`).
    fn line_from_cell(&self, s: usize, dir: usize, cter_id: u32) -> (r: (u32, Vec<usize>))
        requires
            self.tile_map.wf(),
            s < self.tile_map.map_cells@.len(),
            dir < 6,
        ensures
            (r.0 as int, r.1@) == line_from(*self, s as int, dir as int, cter_id),
            1 <= r.0 <= 3,
            1 <= r.1@.len() <= 3,
            r.0 <= r.1@.len(),
    {
        let x = self.tile_map.map_cells[s].x;
        let y = self.tile_map.map_cells[s].y;
        assert(-COORD_LIMIT <= self.tile_map.map_cells@[s as int].x <= COORD_LIMIT);
        let mut count: u32 = 1;
        let mut line: Vec<usize> = Vec::new();
        line.push(s);
        assert(line@ =~= seq![s]);
        let mut j: isize = 1;
        while j <= 2
            invariant
                1 <= j <= 3,
                self.tile_map.wf(),
                -COORD_LIMIT <= x <= COORD_LIMIT,
                -COORD_LIMIT <= y <= COORD_LIMIT,
                x == self.tile_map.map_cells@[s as int].x,
                y == self.tile_map.map_cells@[s as int].y,
                dir < 6,
                1 <= count <= j,
                count <= line@.len() <= j,
                line@.len() >= 1,
                j == 1 ==> (count as int, line@) == (1int, seq![s]),
                j == 2 ==> ({
                    let o1 = line_step(dir as int, 0);
                    (count as int, line@) == extend_line(*self, (1, seq![s]), x + o1.0, y + o1.1, cter_id)
                }),
                j == 3 ==> (count as int, line@) == line_from(*self, s as int, dir as int, cter_id),
            decreases 3 - j,
        {
            let (dx, dy): (isize, isize) = if dir == 0 {
                (-j, j)
            } else if dir == 1 {
                (0, j)
            } else if dir == 2 {
                (j, 0)
            } else if dir == 3 {
                (0, 0)
            } else if dir == 4 {
                (-j, 0)
            } else {
                (j, 0)
            };
            assert((dx as int, dy as int) == line_step(dir as int, j - 1));
            let ghost before = (count as int, line@);
            self.extend_line_at(&mut count, &mut line, x + dx, y + dy, cter_id);
            proof {
                let e = extend_line(*self, before, x + dx, y + dy, cter_id);
                assert(e == before || (e.1.len() == before.1.len() + 1 && (e.0 == before.0 || e.0 == before.0 + 1)));
            }
            j = j + 1;
        }
        (count, line)
    }
}

/// All the lines a robot's line skill could hit: for every cell someone
/// other than `cter_id` stands on, in map order, the six lines from it (see
/// `line_from`), each with the number of cells someone stands on.
pub fn line_candidates(cter_id: u32, battle_data: &BattleData) -> (r: Vec<(u32, Vec<usize>)>)
    requires
        battle_data.tile_map.wf(),
    ensures
        lines_view(r@) == all_lines(*battle_data, cter_id, battle_data.tile_map.map_cells@.len()),
        forall|j: int| 0 <= j < r@.len() ==> 1 <= (#[trigger] r@[j]).0 <= 3 && r@[j].0 <= r@[j].1@.len() <= 3,
{
    let ghost cells = battle_data.tile_map.map_cells@;
    let mut out: Vec<(u32, Vec<usize>)> = Vec::new();
    let mut s: usize = 0;
    while s < battle_data.tile_map.map_cells.len()
        invariant
            cells == battle_data.tile_map.map_cells@,
            battle_data.tile_map.wf(),
            s <= cells.len(),
            lines_view(out@) == all_lines(*battle_data, cter_id, s as nat),
            forall|j: int| 0 <= j < out@.len() ==> 1 <= (#[trigger] out@[j]).0 <= 3 && out@[j].0 <= out@[j].1@.len() <= 3,
        decreases cells.len() - s,
    {
        let ghost prev = lines_view(out@);
        let uid = battle_data.tile_map.map_cells[s].user_id;
        if uid != 0 && uid != cter_id {
            let mut d: usize = 0;
            while d < 6
                invariant
                    cells == battle_data.tile_map.map_cells@,
                    battle_data.tile_map.wf(),
                    s < cells.len(),
                    d <= 6,
                    lines_view(out@) == prev + Seq::new(d as nat, |k: int| line_from(*battle_data, s as int, k, cter_id)),
                    forall|j: int| 0 <= j < out@.len() ==> 1 <= (#[trigger] out@[j]).0 <= 3 && out@[j].0 <= out@[j].1@.len() <= 3,
                decreases 6 - d,
            {
                let line = battle_data.line_from_cell(s, d, cter_id);
                let ghost before = out@;
                out.push(line);
                d = d + 1;
                proof {
                    assert(lines_view(out@) =~= lines_view(before).push((line.0 as int, line.1@)));
                    assert(lines_view(out@) =~= prev + Seq::new(d as nat, |k: int| line_from(*battle_data, s as int, k, cter_id)));
                }
            }
        }
        s = s + 1;
        proof {
            let sq = Seq::new(6, |k: int| line_from(*battle_data, (s - 1) as int, k, cter_id));
            assert(Seq::new(6nat, |k: int| line_from(*battle_data, (s - 1) as int, k, cter_id)) =~= sq);
        }
    }
    out
}

/// The lines of the best kind: the count they share (see `best_count`) and
/// their cells, in order (see `group_of`).
pub fn line_group(lines: &Vec<(u32, Vec<usize>)>) -> (r: (u32, Vec<Vec<usize>>))
    requires
        forall|j: int| 0 <= j < lines@.len() ==> 1 <= (#[trigger] lines@[j]).1@.len(),
    ensures
        r.0 == best_count(lines_view(lines@)),
        r.1@.map_values(|v: Vec<usize>| v@) == group_of(lines_view(lines@), r.0 as int),
        forall|k: int| 0 <= k < r.1@.len() ==> 1 <= (#[trigger] r.1@[k])@.len(),
{
    let ghost lv = lines_view(lines@);
    let mut has3 = false;
    let mut has2 = false;
    let mut i: usize = 0;
    while i < lines.len()
        invariant
            lv == lines_view(lines@),
            i <= lines@.len(),
            has3 <==> exists|j: int| 0 <= j < i && #[trigger] lv[j].0 == 3,
            has2 <==> exists|j: int| 0 <= j < i && #[trigger] lv[j].0 == 2,
        decreases lines.len() - i,
    {
        assert(lv[i as int].0 == lines@[i as int].0);
        if lines[i].0 == 3 {
            has3 = true;
        }
        if lines[i].0 == 2 {
            has2 = true;
        }
        i = i + 1;
    }
    let c: u32 = if has3 { 3 } else if has2 { 2 } else { 1 };
    let mut g: Vec<Vec<usize>> = Vec::new();
    let mut i: usize = 0;
    while i < lines.len()
        invariant
            lv == lines_view(lines@),
            lv.len() == lines@.len(),
            i <= lines@.len(),
            g@.map_values(|v: Vec<usize>| v@) == group_of(lv.take(i as int), c as int),
            forall|j: int| 0 <= j < lines@.len() ==> 1 <= (#[trigger] lines@[j]).1@.len(),
            forall|k: int| 0 <= k < g@.len() ==> 1 <= (#[trigger] g@[k])@.len(),
        decreases lines.len() - i,
    {
        assert(lv.take(i + 1).drop_last() =~= lv.take(i as int));
        assert(lv[i as int] == (lines@[i as int].0 as int, lines@[i as int].1@));
        if lines[i].0 == c {
            let ghost before = g@;
            g.push(copy_indices(&lines[i].1));
            assert(g@.map_values(|v: Vec<usize>| v@) =~= before.map_values(|v: Vec<usize>| v@).push(lines@[i as int].1@));
        } else {
            assert(g@.map_values(|v: Vec<usize>| v@) == group_of(lv.take(i + 1), c as int));
        }
        i = i + 1;
    }
    assert(lv.take(lv.len() as int) =~= lv);
    (c, g)
}

/// A line in the order it is aimed at (see `arranged`).
pub fn arrange_line(v: &Vec<usize>) -> (r: Vec<usize>)
    requires
        v@.len() >= 1,
    ensures
        r@ == arranged(v@),
{
    let mut out: Vec<usize> = Vec::new();
    if v.len() > 1 {
        out.push(v[1]);
    }
    out.push(v[0]);
    if v.len() > 2 {
        out.push(v[2]);
    }
    assert(out@ =~= arranged(v@));
    out
}

/// The line a robot's line skill aims at: among the lines with the most
/// cells someone stands on (see `line_candidates` and `line_group`), one
/// drawn at random, in aiming order, with that number; `None` where no one
/// but `cter_id` stands on the map.
pub fn get_line_aoe(cter_id: u32, battle_data: &BattleData) -> (r: Option<(u32, Vec<usize>)>)
    requires
        battle_data.tile_map.wf(),
    ensures
        line_pick(all_lines(*battle_data, cter_id, battle_data.tile_map.map_cells@.len()), match r { Some((c, v)) => Some((c, v@)), None => None }),
{
    let lines = line_candidates(cter_id, battle_data);
    let ghost lv = lines_view(lines@);
    proof {
        assert forall|j: int| 0 <= j < lines@.len() implies 1 <= (#[trigger] lines@[j]).1@.len() by {
            assert(1 <= lines@[j].0 <= lines@[j].1@.len());
        }
    }
    let (c, g) = line_group(&lines);
    if g.len() == 0 {
        proof {
            if lv.len() > 0 {
                lemma_best_group_nonempty(lv);
                assert(g@.map_values(|v: Vec<usize>| v@).len() == g@.len());
            }
        }
        return None;
    }
    let idx = random_index(g.len());
    let picked = arrange_line(&g[idx]);
    proof {
        assert(g@.map_values(|v: Vec<usize>| v@)[idx as int] == g@[idx as int]@);
    }
    Some((c, picked))
}

/// `r` is what the line search answers over `lines`: none where there are
/// none, else the best count and one of the lines of that count, arranged.
pub open spec fn line_pick(lines: Seq<(int, Seq<usize>)>, r: Option<(u32, Seq<usize>)>) -> bool {
    match r {
        None => lines.len() == 0,
        Some((c, v)) => c == best_count(lines) && exists|j: int| 0 <= j < group_of(lines, c as int).len()
            && v == arranged(#[trigger] group_of(lines, c as int)[j]),
    }
}

/// Where every line holds one to three cells someone stands on, the lines
/// of the best count are not none.
proof fn lemma_best_group_nonempty(lines: Seq<(int, Seq<usize>)>)
    requires
        lines.len() > 0,
        forall|j: int| 0 <= j < lines.len() ==> 1 <= (#[trigger] lines[j]).0 <= 3,
    ensures
        group_of(lines, best_count(lines)).len() > 0,
{
    let c = best_count(lines);
    let j = if c == 3 {
        choose|j: int| 0 <= j < lines.len() && #[trigger] lines[j].0 == 3
    } else if c == 2 {
        choose|j: int| 0 <= j < lines.len() && #[trigger] lines[j].0 == 2
    } else {
        0
    };
    assert(lines[j].0 == c);
    lemma_group_has(lines, c, j);
}

/// A line of count `c` puts something in the group of `c`.
proof fn lemma_group_has(lines: Seq<(int, Seq<usize>)>, c: int, j: int)
    requires
        0 <= j < lines.len(),
        lines[j].0 == c,
    ensures
        group_of(lines, c).len() > 0,
    decreases lines.len(),
{
    if j < lines.len() - 1 {
        assert(lines.drop_last()[j] == lines[j]);
        lemma_group_has(lines.drop_last(), c, j);
    }
}

/// Whether player `p`'s characters count for `get_hp_max_cter`: still in the
/// battle, not the robot, not of team `team_id`.
pub open spec fn hp_max_player(p: BattlePlayer, robot_id: u32, team_id: Option<u8>) -> bool {
    &&& player_alive(p)
    &&& p.user_id != robot_id
    &&& !(team_id matches Some(t) && p.team_id == t)
}

/// The characters that count for `get_hp_max_cter`, player by player.
pub open spec fn hp_max_cters(ps: Seq<BattlePlayer>, robot_id: u32, team_id: Option<u8>) -> Seq<BattleCharacter>
    decreases ps.len(),
{
    if ps.len() == 0 {
        Seq::empty()
    } else {
        hp_max_cters(ps.drop_last(), robot_id, team_id)
            + if hp_max_player(ps.last(), robot_id, team_id) { ps.last().cters@ } else { Seq::empty() }
    }
}

/// Highest hp so far and the cell of its first holder, starting from (0, 0).
pub open spec fn hp_max_fold(cs: Seq<BattleCharacter>) -> (int, usize)
    decreases cs.len(),
{
    if cs.len() == 0 {
        (0, 0)
    } else {
        let a = hp_max_fold(cs.drop_last());
        let c = cs.last();
        if c.base_attr.hp > a.0 {
            (c.base_attr.hp as int, c.get_map_cell_index_spec())
        } else {
            a
        }
    }
}

/// The cell found by the search of `get_hp_max_cter`: the cell it keeps
/// where some character has hp above 0, none otherwise.
pub open spec fn found_cell(a: (int, usize)) -> Option<usize> {
    if a.0 > 0 {
        Some(a.1)
    } else {
        None
    }
}

/// The highest hp the search of `get_hp_max_cter` keeps is one a counted
/// character has, on the cell kept, where it is above 0.
proof fn lemma_hp_max_attained(cs: Seq<BattleCharacter>)
    ensures
        hp_max_fold(cs).0 > 0 ==> exists|k: int| 0 <= k < cs.len() && (#[trigger] cs[k]).base_attr.hp == hp_max_fold(cs).0
            && cs[k].get_map_cell_index_spec() == hp_max_fold(cs).1,
    decreases cs.len(),
{
    if cs.len() > 0 {
        lemma_hp_max_attained(cs.drop_last());
        if hp_max_fold(cs) == hp_max_fold(cs.drop_last()) && hp_max_fold(cs).0 > 0 {
            let k = choose|k: int| 0 <= k < cs.drop_last().len() && (#[trigger] cs.drop_last()[k]).base_attr.hp == hp_max_fold(cs).0
                && cs.drop_last()[k].get_map_cell_index_spec() == hp_max_fold(cs).1;
            assert(cs[k] == cs.drop_last()[k]);
        } else if hp_max_fold(cs).0 > 0 {
            assert(cs[cs.len() - 1].base_attr.hp == hp_max_fold(cs).0);
        }
    }
}

/// The cell of the character with the highest hp (the first one found)
/// among those of the players other than `robot_id` still in the battle and
/// not of team `team_id`; `None` where none has hp above 0.
pub fn get_hp_max_cter(battle_data: &BattleData, robot_id: u32, team_id: Option<u8>) -> (r: Option<usize>)
    ensures
        r == found_cell(hp_max_fold(hp_max_cters(battle_data.battle_player@, robot_id, team_id))),
        ({
            let cs = hp_max_cters(battle_data.battle_player@, robot_id, team_id);
            &&& r is None <==> forall|k: int| 0 <= k < cs.len() ==> (#[trigger] cs[k]).base_attr.hp <= 0
            &&& r matches Some(i) ==> exists|k: int| 0 <= k < cs.len() && (#[trigger] cs[k]).get_map_cell_index_spec() == i
                && cs[k].base_attr.hp > 0
                && forall|k2: int| 0 <= k2 < cs.len() ==> (#[trigger] cs[k2]).base_attr.hp <= cs[k].base_attr.hp
        }),
{
    let ghost ps = battle_data.battle_player@;
    let mut res_hp: i16 = 0;
    let mut res_index: usize = 0;
    let mut i: usize = 0;
    while i < battle_data.battle_player.len()
        invariant
            ps == battle_data.battle_player@,
            i <= ps.len(),
            (res_hp as int, res_index) == hp_max_fold(hp_max_cters(ps.take(i as int), robot_id, team_id)),
        decreases ps.len() - i,
    {
        let p = &battle_data.battle_player[i];
        let ghost before = hp_max_cters(ps.take(i as int), robot_id, team_id);
        proof {
            assert(ps.take(i + 1).drop_last() =~= ps.take(i as int));
        }
        let skip = p.is_died() || p.get_user_id() == robot_id || match team_id {
            Some(t) => p.team_id == t,
            None => false,
        };
        if !skip {
            let mut j: usize = 0;
            while j < p.cters.len()
                invariant
                    *p == ps[i as int],
                    j <= p.cters@.len(),
                    (res_hp as int, res_index) == hp_max_fold(before + p.cters@.take(j as int)),
                decreases p.cters@.len() - j,
            {
                let hp = p.cters[j].base_attr.hp;
                proof {
                    assert((before + p.cters@.take(j + 1)).drop_last() =~= before + p.cters@.take(j as int));
                }
                if hp > res_hp {
                    res_hp = hp;
                    res_index = p.cters[j].get_map_cell_index();
                }
                j = j + 1;
            }
            proof {
                assert(p.cters@.take(j as int) =~= p.cters@);
            }
        } else {
            proof {
                assert(before + Seq::<BattleCharacter>::empty() =~= before);
            }
        }
        i = i + 1;
    }
    proof {
        assert(ps.take(ps.len() as int) =~= ps);
        let cs = hp_max_cters(ps, robot_id, team_id);
        law_hp_max_is_highest(cs);
        lemma_hp_max_attained(cs);
        if res_hp <= 0 {
            assert forall|k: int| 0 <= k < cs.len() implies (#[trigger] cs[k]).base_attr.hp <= 0 by {}
        } else {
            let k = choose|k: int| 0 <= k < cs.len() && (#[trigger] cs[k]).base_attr.hp == hp_max_fold(cs).0
                && cs[k].get_map_cell_index_spec() == hp_max_fold(cs).1;
            assert(cs[k].base_attr.hp > 0);
        }
    }
    if res_hp > 0 {
        Some(res_index)
    } else {
        None
    }
}

/// Whether character `c` counts for `get_hp_min_cter`: alive, not of team `team_id`.
pub open spec fn hp_min_counts(c: BattleCharacter, team_id: Option<u8>) -> bool {
    c.state != BattleCterState::Died && !(team_id matches Some(t) && c.base_attr.team_id == t)
}

/// The search of `get_hp_min_cter`: the first counted character with the
/// lowest hp, as (hp, cell); none where no character counts.
pub open spec fn hp_min_fold(cs: Seq<BattleCharacter>, team_id: Option<u8>) -> Option<(int, usize)>
    decreases cs.len(),
{
    if cs.len() == 0 {
        None
    } else {
        let a = hp_min_fold(cs.drop_last(), team_id);
        let c = cs.last();
        if !hp_min_counts(c, team_id) {
            a
        } else {
            match a {
                None => Some((c.base_attr.hp as int, c.get_map_cell_index_spec())),
                Some(b) => if (c.base_attr.hp as int) < b.0 { Some((c.base_attr.hp as int, c.get_map_cell_index_spec())) } else { a },
            }
        }
    }
}

/// The cell `get_hp_min_cter` answers.
pub open spec fn hp_min_cell(cs: Seq<BattleCharacter>, team_id: Option<u8>) -> Option<usize> {
    match hp_min_fold(cs, team_id) {
        Some(b) => Some(b.1),
        None => None,
    }
}

/// The search of `get_hp_min_cter` finds a counted character exactly where
/// there is one, and keeps one with the lowest hp.
proof fn lemma_hp_min_is_lowest(cs: Seq<BattleCharacter>, team_id: Option<u8>)
    ensures
        hp_min_fold(cs, team_id) is None <==> forall|k: int| 0 <= k < cs.len() ==> !hp_min_counts(#[trigger] cs[k], team_id),
        hp_min_fold(cs, team_id) matches Some(b) ==> exists|k: int| 0 <= k < cs.len() && hp_min_counts(#[trigger] cs[k], team_id)
            && cs[k].base_attr.hp == b.0 && cs[k].get_map_cell_index_spec() == b.1
            && forall|k2: int| 0 <= k2 < cs.len() && hp_min_counts(#[trigger] cs[k2], team_id) ==> b.0 <= cs[k2].base_attr.hp,
    decreases cs.len(),
{
    if cs.len() > 0 {
        let d = cs.drop_last();
        lemma_hp_min_is_lowest(d, team_id);
        assert forall|k: int| 0 <= k < d.len() implies #[trigger] d[k] == cs[k] by {}
        let last = cs.len() - 1;
        if hp_min_fold(cs, team_id) is None {
            assert forall|k: int| 0 <= k < cs.len() implies !hp_min_counts(#[trigger] cs[k], team_id) by {
                if k < last {
                    assert(d[k] == cs[k]);
                }
            }
        } else {
            if forall|k: int| 0 <= k < cs.len() ==> !hp_min_counts(#[trigger] cs[k], team_id) {
                assert(!hp_min_counts(cs[last], team_id));
                assert forall|k: int| 0 <= k < d.len() implies !hp_min_counts(#[trigger] d[k], team_id) by {
                    assert(d[k] == cs[k]);
                }
            }
            let b = hp_min_fold(cs, team_id).unwrap();
            if hp_min_fold(cs, team_id) == hp_min_fold(d, team_id) {
                let k = choose|k: int| 0 <= k < d.len() && hp_min_counts(#[trigger] d[k], team_id)
                    && d[k].base_attr.hp == b.0 && d[k].get_map_cell_index_spec() == b.1
                    && forall|k2: int| 0 <= k2 < d.len() && hp_min_counts(#[trigger] d[k2], team_id) ==> b.0 <= d[k2].base_attr.hp;
                assert(cs[k] == d[k]);
                assert forall|k2: int| 0 <= k2 < cs.len() && hp_min_counts(#[trigger] cs[k2], team_id) implies b.0 <= cs[k2].base_attr.hp by {
                    if k2 < last {
                        assert(d[k2] == cs[k2]);
                    }
                }
            } else {
                assert(cs[last].base_attr.hp == b.0);
                assert forall|k2: int| 0 <= k2 < cs.len() && hp_min_counts(#[trigger] cs[k2], team_id) implies b.0 <= cs[k2].base_attr.hp by {
                    if k2 < last {
                        assert(d[k2] == cs[k2]);
                        assert(hp_min_fold(d, team_id) is Some);
                    }
                }
            }
        }
    }
}

/// The cell of the living character with the lowest hp (the first one
/// found) not of team `team_id`; `None` where there is none.
pub fn get_hp_min_cter(battle_data: &BattleData, team_id: Option<u8>) -> (r: Option<usize>)
    ensures
        r == hp_min_cell(all_cters(battle_data.battle_player@), team_id),
        ({
            let cs = all_cters(battle_data.battle_player@);
            &&& r is None <==> forall|k: int| 0 <= k < cs.len() ==> !hp_min_counts(#[trigger] cs[k], team_id)
            &&& r matches Some(i) ==> exists|k: int| 0 <= k < cs.len() && hp_min_counts(#[trigger] cs[k], team_id)
                && cs[k].get_map_cell_index_spec() == i
                && forall|k2: int| 0 <= k2 < cs.len() && hp_min_counts(#[trigger] cs[k2], team_id) ==> cs[k].base_attr.hp <= cs[k2].base_attr.hp
        }),
{
    let ghost ps = battle_data.battle_player@;
    let mut found = false;
    let mut res_hp: i16 = 0;
    let mut res_index: usize = 0;
    let mut i: usize = 0;
    while i < battle_data.battle_player.len()
        invariant
            ps == battle_data.battle_player@,
            i <= ps.len(),
            hp_min_fold(all_cters(ps.take(i as int)), team_id)
                == (if found { Some((res_hp as int, res_index)) } else { None::<(int, usize)> }),
        decreases ps.len() - i,
    {
        let p = &battle_data.battle_player[i];
        let ghost before = all_cters(ps.take(i as int));
        proof {
            lemma_all_cters_next(ps, i as int);
        }
        let mut j: usize = 0;
        while j < p.cters.len()
            invariant
                *p == ps[i as int],
                j <= p.cters@.len(),
                hp_min_fold(before + p.cters@.take(j as int), team_id)
                    == (if found { Some((res_hp as int, res_index)) } else { None::<(int, usize)> }),
            decreases p.cters@.len() - j,
        {
            let c = &p.cters[j];
            proof {
                assert((before + p.cters@.take(j + 1)).drop_last() =~= before + p.cters@.take(j as int));
            }
            let counts = !c.is_died() && match team_id {
                Some(t) => c.base_attr.team_id != t,
                None => true,
            };
            if counts {
                if !found || c.base_attr.hp < res_hp {
                    found = true;
                    res_hp = c.base_attr.hp;
                    res_index = c.get_map_cell_index();
                }
            }
            j = j + 1;
        }
        proof {
            assert(p.cters@.take(j as int) =~= p.cters@);
        }
        i = i + 1;
    }
    proof {
        assert(ps.take(ps.len() as int) =~= ps);
        lemma_hp_min_is_lowest(all_cters(ps), team_id);
    }
    if found {
        Some(res_index)
    } else {
        None
    }
}

/// Whether a living character with id `cter_id` is found (see `BattleData::get_battle_cter`).
pub open spec fn live_cter(bd: BattleData, cter_id: u32) -> bool {
    let cs = all_cters(bd.battle_player@);
    (exists|k: int| #[trigger] first_cter_in(cs, cter_id, k))
        && cs[choose|k: int| #[trigger] first_cter_in(cs, cter_id, k)].state != BattleCterState::Died
}

/// The character with id `cter_id` (see `BattleData::get_battle_cter`).
pub open spec fn cter_of(bd: BattleData, cter_id: u32) -> BattleCharacter {
    let cs = all_cters(bd.battle_player@);
    cs[choose|k: int| #[trigger] first_cter_in(cs, cter_id, k)]
}

/// `|a - b|`.
pub open spec fn abs_diff(a: int, b: int) -> int {
    if a >= b { a - b } else { b - a }
}

/// The search of `get_nearest_cter` over characters `cs`, from a centre
/// whose coordinates sum to `res`: the least (distance, cell) pair, by
/// distance and then by cell, among the living characters not of team
/// `team` that stand on a cell of the map.
pub open spec fn nearest_fold(bd: BattleData, cs: Seq<BattleCharacter>, res: int, team: u8) -> Option<(int, usize)>
    decreases cs.len(),
{
    if cs.len() == 0 {
        None
    } else {
        let a = nearest_fold(bd, cs.drop_last(), res, team);
        let c = cs.last();
        let cells = bd.tile_map.map_cells@;
        let idx = c.get_map_cell_index_spec();
        if c.state == BattleCterState::Died || c.base_attr.team_id == team || idx >= cells.len() {
            a
        } else {
            let value = abs_diff(res, cells[idx as int].x + cells[idx as int].y);
            match a {
                None => Some((value, idx)),
                Some(b) => if value < b.0 || (value == b.0 && idx < b.1) { Some((value, idx)) } else { a },
            }
        }
    }
}

/// What `get_nearest_cter` answers.
pub open spec fn nearest_result(bd: BattleData, cter_id: u32, team_id: Option<u8>) -> Option<usize> {
    if !live_cter(bd, cter_id) {
        None
    } else {
        let cells = bd.tile_map.map_cells@;
        let me = cells[cter_of(bd, cter_id).get_map_cell_index_spec() as int];
        let team: u8 = match team_id { Some(t) => t, None => 0 };
        match nearest_fold(bd, all_cters(bd.battle_player@), me.x + me.y, team) {
            Some(b) => Some(b.1),
            None => None,
        }
    }
}

/// The cell of the character nearest to character `cter_id`, measured by
/// the sum of coordinates, among the living characters not of team
/// `team_id` (team 0 where none is given); `None` where `cter_id` is not a
/// living character or no character counts.
pub fn get_nearest_cter(battle_data: &BattleData, cter_id: u32, team_id: Option<u8>) -> (r: Option<usize>)
    requires
        battle_data.tile_map.wf(),
        live_cter(*battle_data, cter_id) ==>
            cter_of(*battle_data, cter_id).get_map_cell_index_spec() < battle_data.tile_map.map_cells@.len(),
    ensures
        r == nearest_result(*battle_data, cter_id, team_id),
{
    let ghost ps = battle_data.battle_player@;
    let ghost cells = battle_data.tile_map.map_cells@;
    let me = match battle_data.get_battle_cter(cter_id, true) {
        Err(_) => return None,
        Ok(c) => c,
    };
    let cter_index = me.get_map_cell_index();
    let mx = battle_data.tile_map.map_cells[cter_index].x;
    let my = battle_data.tile_map.map_cells[cter_index].y;
    assert(-COORD_LIMIT <= cells[cter_index as int].x <= COORD_LIMIT);
    let res = mx + my;
    let team: u8 = match team_id {
        Some(t) => t,
        None => 0,
    };
    let mut best: Option<(isize, usize)> = None;
    let mut i: usize = 0;
    while i < battle_data.battle_player.len()
        invariant
            ps == battle_data.battle_player@,
            cells == battle_data.tile_map.map_cells@,
            battle_data.tile_map.wf(),
            i <= ps.len(),
            -2 * COORD_LIMIT <= res <= 2 * COORD_LIMIT,
            best == match nearest_fold(*battle_data, all_cters(ps.take(i as int)), res as int, team) {
                Some(b) => Some((b.0 as isize, b.1)),
                None => None::<(isize, usize)>,
            },
            nearest_fold(*battle_data, all_cters(ps.take(i as int)), res as int, team) matches Some(b) ==> 0 <= b.0 <= 4 * COORD_LIMIT,
        decreases ps.len() - i,
    {
        let p = &battle_data.battle_player[i];
        let ghost before = all_cters(ps.take(i as int));
        proof {
            lemma_all_cters_next(ps, i as int);
        }
        let mut j: usize = 0;
        while j < p.cters.len()
            invariant
                *p == ps[i as int],
                cells == battle_data.tile_map.map_cells@,
                battle_data.tile_map.wf(),
                j <= p.cters@.len(),
                -2 * COORD_LIMIT <= res <= 2 * COORD_LIMIT,
                best == match nearest_fold(*battle_data, before + p.cters@.take(j as int), res as int, team) {
                    Some(b) => Some((b.0 as isize, b.1)),
                    None => None::<(isize, usize)>,
                },
                nearest_fold(*battle_data, before + p.cters@.take(j as int), res as int, team) matches Some(b) ==> 0 <= b.0 <= 4 * COORD_LIMIT,
            decreases p.cters@.len() - j,
        {
            let c = &p.cters[j];
            proof {
                assert((before + p.cters@.take(j + 1)).drop_last() =~= before + p.cters@.take(j as int));
            }
            let idx = c.get_map_cell_index();
            if !c.is_died() && c.base_attr.team_id != team && idx < battle_data.tile_map.map_cells.len() {
                let ox = battle_data.tile_map.map_cells[idx].x;
                let oy = battle_data.tile_map.map_cells[idx].y;
                assert(-COORD_LIMIT <= cells[idx as int].x <= COORD_LIMIT);
                let d = res - (ox + oy);
                let value: isize = if d >= 0 { d } else { -d };
                match best {
                    None => {
                        best = Some((value, idx));
                    },
                    Some(b) => {
                        if value < b.0 || (value == b.0 && idx < b.1) {
                            best = Some((value, idx));
                        }
                    },
                }
            }
            j = j + 1;
        }
        proof {
            assert(p.cters@.take(j as int) =~= p.cters@);
        }
        i = i + 1;
    }
    proof {
        assert(ps.take(ps.len() as int) =~= ps);
    }
    match best {
        Some(b) => Some(b.1),
        None => None,
    }
}

/// Whether the robot may use the skill that needs a pair this turn.
pub fn pair_useable_skill(robot: &BattlePlayer) -> (r: bool)
    ensures
        r == robot.flow_data.pair_usable_skills@.contains(331u32),
{
    broadcast use vstd::std_specs::hash::group_hash_axioms;
    robot.flow_data.pair_usable_skills.contains(&331u32)
}

/// Whether someone still in the battle stands in the ring round the living
/// character `cter_id` (`near_scope` is the ring).
pub fn near_user(battle_data: &BattleData, cter_id: u32, near_scope: &SkillScopeTemp) -> (r: bool)
    requires
        battle_data.tile_map.wf(),
        live_cter(*battle_data, cter_id),
        scope_wf(near_scope),
        cter_of(*battle_data, cter_id).get_map_cell_index_spec() <= isize::MAX,
    ensures
        r == (scope_result(*battle_data, cter_id, cter_of(*battle_data, cter_id).get_map_cell_index_spec() as isize,
            TargetType::PlayerSelf, None, near_scope).1.len() > 0),
{
    let c = match battle_data.get_battle_cter(cter_id, true) {
        Ok(c) => c,
        Err(_) => {
            assert(false);
            return false;
        },
    };
    let index = c.get_map_cell_index() as isize;
    let res = battle_data.cal_scope(cter_id, index, TargetType::PlayerSelf, None, None, near_scope);
    assert(targets_view(None) == None::<Seq<u32>>);
    res.1.len() > 0
}

/// A value drawn at random from the non-empty list `v`.
pub(crate) fn pick_one(v: &Vec<usize>) -> (r: usize)
    requires
        v@.len() > 0,
    ensures
        v@.contains(r),
{
    let i = random_index(v.len());
    assert(v@[i as int] == v[i as int]);
    v[i]
}

/// Whether the robot remembers the cell at position `idx`.
pub open spec fn remembered(rem: Seq<RememberCell>, idx: usize) -> bool {
    exists|k: int| 0 <= k < rem.len() && #[trigger] rem[k].cell_index == idx
}

/// Whether the robot remembers the cell at position `idx` (see `remembered`).
fn is_remembered(rem: &Vec<RememberCell>, idx: usize) -> (r: bool)
    ensures
        r == remembered(rem@, idx),
{
    let mut k: usize = 0;
    while k < rem.len()
        invariant
            k <= rem@.len(),
            forall|j: int| 0 <= j < k ==> #[trigger] rem@[j].cell_index != idx,
        decreases rem@.len() - k,
    {
        if rem[k].cell_index == idx {
            assert(rem@[k as int].cell_index == idx);
            return true;
        }
        k = k + 1;
    }
    false
}

/// Whether cell `c` is unknown to the robot: not the world cell, and not remembered.
pub open spec fn unknown_cell(c: MapCell, rem: Seq<RememberCell>) -> bool {
    !c.is_world && !remembered(rem, c.index)
}

/// Whether some cell unknown to the robot is at position `x`.
pub open spec fn unknown_at(cells: Seq<MapCell>, rem: Seq<RememberCell>, x: usize) -> bool {
    exists|j: int| 0 <= j < cells.len() && unknown_cell(#[trigger] cells[j], rem) && cells[j].index == x
}

/// A cell unknown to the robot drawn at random (see `unknown_cell`); `None`
/// where every cell is known.
pub fn check_unknow_map_cell(tile_map: &TileMap, robot: &RobotData) -> (r: Option<usize>)
    ensures
        r is None <==> forall|i: int| 0 <= i < tile_map.map_cells@.len()
            ==> !unknown_cell(#[trigger] tile_map.map_cells@[i], robot.remember_map_cell@),
        r matches Some(x) ==> unknown_at(tile_map.map_cells@, robot.remember_map_cell@, x),
{
    let ghost cells = tile_map.map_cells@;
    let ghost rem = robot.remember_map_cell@;
    let mut v: Vec<usize> = Vec::new();
    let mut i: usize = 0;
    while i < tile_map.map_cells.len()
        invariant
            cells == tile_map.map_cells@,
            rem == robot.remember_map_cell@,
            i <= cells.len(),
            forall|q: int| 0 <= q < v@.len() ==> unknown_at(cells, rem, #[trigger] v@[q]),
            v@.len() == 0 ==> forall|j: int| 0 <= j < i ==> !unknown_cell(#[trigger] cells[j], rem),
        decreases cells.len() - i,
    {
        let c = &tile_map.map_cells[i];
        if !c.is_world() && !is_remembered(&robot.remember_map_cell, c.index) {
            v.push(c.index);
            proof {
                assert(unknown_cell(cells[i as int], rem));
                assert(unknown_at(cells, rem, cells[i as int].index));
            }
        }
        i = i + 1;
    }
    if v.len() == 0 {
        return None;
    }
    let x = pick_one(&v);
    proof {
        let q = choose|q: int| 0 <= q < v@.len() && v@[q] == x;
        assert(unknown_at(cells, rem, v@[q]));
    }
    Some(x)
}

/// `x` may be the answer of `rand_not_remember_map_cell`: a cell not paired
/// yet, one the robot does not remember where there is such a one.
pub open spec fn unpaired_pick(tile_map: &TileMap, robot: &RobotData, x: usize) -> bool {
    let upm = tile_map.un_pair_map@;
    let rem = robot.remember_map_cell@;
    &&& exists|i: int| 0 <= i < upm.len() && #[trigger] upm[i].0 == x
    &&& (exists|i: int| 0 <= i < upm.len() && !remembered(rem, #[trigger] upm[i].0)) ==> !remembered(rem, x)
}

/// A cell not paired yet drawn at random, among those the robot does not
/// remember where there are any, else among all (see `unpaired_pick`).
pub fn rand_not_remember_map_cell(tile_map: &TileMap, robot: &RobotData) -> (r: Option<usize>)
    requires
        tile_map.un_pair_map@.len() > 0,
    ensures
        r matches Some(x) && unpaired_pick(tile_map, robot, x),
{
    let ghost upm = tile_map.un_pair_map@;
    let ghost rem = robot.remember_map_cell@;
    let mut fresh: Vec<usize> = Vec::new();
    let mut all: Vec<usize> = Vec::new();
    let mut i: usize = 0;
    while i < tile_map.un_pair_map.len()
        invariant
            upm == tile_map.un_pair_map@,
            rem == robot.remember_map_cell@,
            i <= upm.len(),
            all@.len() == i,
            forall|q: int| 0 <= q < i ==> #[trigger] all@[q] == upm[q].0,
            forall|q: int| 0 <= q < fresh@.len() ==> !remembered(rem, #[trigger] fresh@[q])
                && exists|j: int| 0 <= j < upm.len() && #[trigger] upm[j].0 == fresh@[q],
            fresh@.len() == 0 ==> forall|j: int| 0 <= j < i ==> remembered(rem, #[trigger] upm[j].0),
        decreases upm.len() - i,
    {
        let idx = tile_map.un_pair_map[i].0;
        if !is_remembered(&robot.remember_map_cell, idx) {
            fresh.push(idx);
            proof {
                assert forall|q: int| 0 <= q < fresh@.len() implies !remembered(rem, #[trigger] fresh@[q])
                    && exists|j: int| 0 <= j < upm.len() && #[trigger] upm[j].0 == fresh@[q] by {
                    if q == fresh@.len() - 1 {
                        assert(upm[i as int].0 == fresh@[q]);
                    }
                }
            }
        }
        all.push(idx);
        i = i + 1;
    }
    if fresh.len() > 0 {
        let x = pick_one(&fresh);
        proof {
            let q = choose|q: int| 0 <= q < fresh@.len() && fresh@[q] == x;
            assert(!remembered(rem, fresh@[q]));
            assert(exists|j: int| 0 <= j < upm.len() && #[trigger] upm[j].0 == fresh@[q]);
        }
        Some(x)
    } else {
        let x = pick_one(&all);
        proof {
            let q = choose|q: int| 0 <= q < all@.len() && all@[q] == x;
            assert(upm[q].0 == x);
        }
        Some(x)
    }
}

/// The cell of a player's character acting now (see `BattlePlayer::get_current_cter_index`).
pub open spec fn current_index(p: BattlePlayer) -> usize {
    p.cters@[choose|i: int| first_cter(p.cters@, p.current_cter.0, i)].get_map_cell_index_spec()
}

proof fn lemma_first_cter_unique(cs: Seq<BattleCharacter>, id: u32, i: int, k: int)
    requires
        first_cter(cs, id, i),
        first_cter(cs, id, k),
    ensures
        i == k,
{
    if i < k {
        assert(cs[i].base_attr.cter_id != id);
    } else if k < i {
        assert(cs[k].base_attr.cter_id != id);
    }
}

/// The cells an area walk lists are cells of the map.
proof fn lemma_scope_walk_cells(
    bd: BattleData,
    user_id: u32,
    tt: TargetType,
    targets: Option<Seq<u32>>,
    cx: int,
    cy: int,
    coords: Seq<Coord2d>,
)
    ensures
        forall|k: int| 0 <= k < scope_walk(bd, user_id, tt, targets, cx, cy, coords).0.len()
            ==> #[trigger] scope_walk(bd, user_id, tt, targets, cx, cy, coords).0[k] < bd.tile_map.map_cells@.len(),
    decreases coords.len(),
{
    if coords.len() > 0 {
        lemma_scope_walk_cells(bd, user_id, tt, targets, cx, cy, coords.drop_last());
        let cells = bd.tile_map.map_cells@;
        let x = cx + coords.last().x;
        let y = cy + coords.last().y;
        let prev = scope_walk(bd, user_id, tt, targets, cx, cy, coords.drop_last());
        let res = scope_walk(bd, user_id, tt, targets, cx, cy, coords);
        assert(res == scope_step(bd, user_id, tt, targets, prev, cx, cy, coords.last()));
        if has_cell_at(cells, x, y) {
            let i = choose|i: int| cell_at(cells, x, y, i);
            assert(cell_at(cells, x, y, i));
            assert(res.0 == prev.0.push(i as usize));
            assert forall|k: int| 0 <= k < res.0.len() implies #[trigger] res.0[k] < cells.len() by {
                if k < prev.0.len() {
                    assert(res.0[k] == prev.0[k]);
                }
            }
        }
    }
}

/// Of the cells `idxs`, those a robot may open: closed, not locked, in use.
pub open spec fn openable_cells(bd: BattleData, idxs: Seq<usize>) -> Seq<usize>
    decreases idxs.len(),
{
    if idxs.len() == 0 {
        Seq::empty()
    } else {
        let prev = openable_cells(bd, idxs.drop_last());
        let c = bd.tile_map.map_cells@[idxs.last() as int];
        if c.open_user > 0 || has_buff_id(c.buffs@, LOCKED) || c.cell_type != MapCellType::Valid {
            prev
        } else {
            prev.push(idxs.last())
        }
    }
}

/// Of the cells `idxs`, those holding what the remembered cell `r` holds
/// at another position.
pub open spec fn matches_for(bd: BattleData, r: RememberCell, idxs: Seq<usize>) -> Seq<usize>
    decreases idxs.len(),
{
    if idxs.len() == 0 {
        Seq::empty()
    } else {
        let prev = matches_for(bd, r, idxs.drop_last());
        let c = bd.tile_map.map_cells@[idxs.last() as int];
        if r.cell_index == c.index || r.cell_id != c.id {
            prev
        } else {
            prev.push(idxs.last())
        }
    }
}

/// For each remembered cell in order, the cells of `idxs` that match it.
pub open spec fn remembered_matches(bd: BattleData, rem: Seq<RememberCell>, idxs: Seq<usize>) -> Seq<usize>
    decreases rem.len(),
{
    if rem.len() == 0 {
        Seq::empty()
    } else {
        remembered_matches(bd, rem.drop_last(), idxs) + matches_for(bd, rem.last(), idxs)
    }
}

/// The cells round the robot it may open (see `openable_cells`).
pub open spec fn near_openable(bd: BattleData, robot_id: u32, near_scope: &SkillScopeTemp) -> Seq<usize> {
    let p = player_of(bd.battle_player@, robot_id);
    openable_cells(bd, scope_result(bd, p.current_cter.0, current_index(p) as isize, TargetType::PlayerSelf,
        None, near_scope).0)
}

/// `r` is what the opening pick answers (see `skill_open_near_cell_robot`).
pub open spec fn near_open_pick(bd: BattleData, robot_data: &RobotData, near_scope: &SkillScopeTemp, r: Option<usize>) -> bool {
    let res_v = near_openable(bd, robot_data.robot_id, near_scope);
    let v = remembered_matches(bd, robot_data.remember_map_cell@, res_v);
    if res_v.len() == 0 {
        r is None
    } else if robot_data.remember_map_cell@.len() == 0 || v.len() == 0 {
        r matches Some(x) && res_v.contains(x)
    } else {
        r matches Some(x) && v.contains(x)
    }
}

/// A cell drawn at random round the robot for its opening skill: among the
/// cells it may open (see `near_openable`), one matching a remembered cell
/// where any does (see `remembered_matches`); `None` where it may open none.
/// `near_scope` is the ring round a cell.
pub fn skill_open_near_cell_robot(battle_data: &BattleData, robot_data: &RobotData, near_scope: &SkillScopeTemp) -> (r: Option<usize>)
    requires
        battle_data.tile_map.wf(),
        scope_wf(near_scope),
        has_player(battle_data.battle_player@, robot_data.robot_id),
        has_cter(player_of(battle_data.battle_player@, robot_data.robot_id).cters@,
            player_of(battle_data.battle_player@, robot_data.robot_id).current_cter.0),
    ensures
        near_open_pick(*battle_data, robot_data, near_scope, r),
{
    let ghost cells = battle_data.tile_map.map_cells@;
    let p = match battle_data.get_battle_player(Some(robot_data.robot_id), false) {
        Ok(p) => p,
        Err(_) => {
            assert(false);
            return None;
        },
    };
    let robot_index = p.get_current_cter_index();
    proof {
        let i = choose|i: int| first_cter(p.cters@, p.current_cter.0, i) && robot_index == (#[trigger] p.cters@[i]).get_map_cell_index_spec();
        let k = choose|k: int| first_cter(p.cters@, p.current_cter.0, k);
        lemma_first_cter_unique(p.cters@, p.current_cter.0, i, k);
    }
    let (map_cells, _) = battle_data.cal_scope(p.current_cter.0, robot_index as isize, TargetType::PlayerSelf, None, None, near_scope);
    let ghost scope = map_cells@;
    proof {
        let c = cells[(robot_index as isize) as int];
        assert(targets_view(None) == None::<Seq<u32>>);
        if 0 <= robot_index as isize && (robot_index as isize) < cells.len() {
            let w = scope_walk(*battle_data, p.current_cter.0, TargetType::PlayerSelf, None,
                c.x as int, c.y as int, scope_coords(near_scope.scope2d@, near_scope.scope2d@.len()));
            lemma_scope_walk_cells(*battle_data, p.current_cter.0, TargetType::PlayerSelf, None,
                c.x as int, c.y as int, scope_coords(near_scope.scope2d@, near_scope.scope2d@.len()));
            assert(scope == w.0);
            assert forall|m: int| 0 <= m < scope.len() implies #[trigger] scope[m] < cells.len() by {
                assert(w.0[m] < cells.len());
            }
        }
    }
    let mut res_v: Vec<usize> = Vec::new();
    let mut k: usize = 0;
    while k < map_cells.len()
        invariant
            cells == battle_data.tile_map.map_cells@,
            scope == map_cells@,
            k <= scope.len(),
            forall|m: int| 0 <= m < scope.len() ==> #[trigger] scope[m] < cells.len(),
            res_v@ == openable_cells(*battle_data, scope.take(k as int)),
        decreases scope.len() - k,
    {
        let idx = map_cells[k];
        assert(scope[k as int] < cells.len());
        proof {
            assert(scope.take(k + 1).drop_last() =~= scope.take(k as int));
        }
        let c = &battle_data.tile_map.map_cells[idx];
        if !(c.open_user > 0 || c.check_is_locked() || c.cell_type != MapCellType::Valid) {
            res_v.push(idx);
        }
        k = k + 1;
    }
    proof {
        assert(scope.take(scope.len() as int) =~= scope);
    }
    if res_v.len() == 0 {
        return None;
    }
    if robot_data.remember_map_cell.len() == 0 {
        return Some(pick_one(&res_v));
    }
    let ghost rv = res_v@;
    proof {
        lemma_openable_in_map(*battle_data, scope);
    }
    let ghost rem = robot_data.remember_map_cell@;
    let mut v: Vec<usize> = Vec::new();
    let mut a: usize = 0;
    while a < robot_data.remember_map_cell.len()
        invariant
            cells == battle_data.tile_map.map_cells@,
            rv == res_v@,
            rem == robot_data.remember_map_cell@,
            forall|m: int| 0 <= m < rv.len() ==> #[trigger] rv[m] < cells.len(),
            a <= rem.len(),
            v@ == remembered_matches(*battle_data, rem.take(a as int), rv),
        decreases rem.len() - a,
    {
        let r = robot_data.remember_map_cell[a];
        let ghost base = v@;
        proof {
            assert(rem.take(a + 1).drop_last() =~= rem.take(a as int));
        }
        let mut b: usize = 0;
        while b < res_v.len()
            invariant
                cells == battle_data.tile_map.map_cells@,
                rv == res_v@,
                forall|m: int| 0 <= m < rv.len() ==> #[trigger] rv[m] < cells.len(),
                b <= rv.len(),
                v@ == base + matches_for(*battle_data, r, rv.take(b as int)),
            decreases rv.len() - b,
        {
            let idx = res_v[b];
            assert(rv[b as int] < cells.len());
            proof {
                assert(rv.take(b + 1).drop_last() =~= rv.take(b as int));
            }
            let c = &battle_data.tile_map.map_cells[idx];
            if !(r.cell_index == c.index || r.cell_id != c.id) {
                v.push(idx);
                proof {
                    assert(v@ =~= base + matches_for(*battle_data, r, rv.take(b + 1)));
                }
            }
            b = b + 1;
        }
        proof {
            assert(rv.take(rv.len() as int) =~= rv);
        }
        a = a + 1;
    }
    proof {
        assert(rem.take(rem.len() as int) =~= rem);
    }
    if v.len() == 0 {
        Some(pick_one(&res_v))
    } else {
        Some(pick_one(&v))
    }
}

/// The cells a robot may open are cells of the list it looked at.
proof fn lemma_openable_in_map(bd: BattleData, idxs: Seq<usize>)
    requires
        forall|m: int| 0 <= m < idxs.len() ==> #[trigger] idxs[m] < bd.tile_map.map_cells@.len(),
    ensures
        forall|m: int| 0 <= m < openable_cells(bd, idxs).len()
            ==> #[trigger] openable_cells(bd, idxs)[m] < bd.tile_map.map_cells@.len(),
    decreases idxs.len(),
{
    if idxs.len() > 0 {
        let d = idxs.drop_last();
        assert forall|m: int| 0 <= m < d.len() implies #[trigger] d[m] < bd.tile_map.map_cells@.len() by {
            assert(d[m] == idxs[m]);
        }
        lemma_openable_in_map(bd, d);
        assert(idxs[idxs.len() - 1] < bd.tile_map.map_cells@.len());
        let prev = openable_cells(bd, d);
        let res = openable_cells(bd, idxs);
        assert forall|m: int| 0 <= m < res.len() implies #[trigger] res[m] < bd.tile_map.map_cells@.len() by {
            if m < prev.len() {
                assert(res[m] == prev[m]);
            }
        }
    }
}

/// Why a robot cannot pick targets for a skill.
#[derive(Debug, Clone, Copy, PartialEq, Eq, Structural)]
pub enum SkillTargetError {
    /// the rule of this function id reads what a battle does not keep: the
    /// last target of a skill, or a list of enemies
    Unsupported(u32),
}

/// A list of one cell, or of none.
pub open spec fn opt_seq(o: Option<usize>) -> Seq<usize> {
    match o {
        Some(x) => seq![x],
        None => Seq::empty(),
    }
}

/// Where there are areas, `t` is a greatest; else `t` is empty.
pub open spec fn pick_or_empty(areas: Seq<Seq<usize>>, t: Seq<usize>) -> bool {
    if areas.len() == 0 { t.len() == 0 } else { is_lex_max(areas, t) }
}

/// Where there are areas, `t` is one hitting the most cells; else `t` is empty.
pub open spec fn most_or_empty(areas: Seq<Seq<usize>>, t: Seq<usize>) -> bool {
    if areas.len() == 0 { t.len() == 0 } else { is_most_hits(areas, t) }
}

/// The cells of the living characters of `cs` not of team `team`, in order.
pub open spec fn enemy_cter_cells(cs: Seq<BattleCharacter>, team: u8) -> Seq<usize>
    decreases cs.len(),
{
    if cs.len() == 0 {
        Seq::empty()
    } else {
        let prev = enemy_cter_cells(cs.drop_last(), team);
        let c = cs.last();
        if c.state == BattleCterState::Died || c.base_attr.team_id == team {
            prev
        } else {
            prev.push(c.get_map_cell_index_spec())
        }
    }
}

/// The function ids whose targets are the highest hp of the other players.
pub open spec fn hp_max_skill(f: u32) -> bool {
    f == 123 || f == 331 || f == 433 || (20001 <= f && f <= 20005)
}

/// The function ids whose rules the library cannot run: their target rules
/// read the last target of a character and its list of enemies, which the
/// battle state does not record, so these skills answer `Unsupported`.
pub open spec fn unsupported_skill(f: u32) -> bool {
    f == 11004 || f == 12002 || f == 13005
}

/// Whether `t` may be the targets a robot picks for `skill`, by the rule of
/// its function id; the cells its characters stand on are recorded by user
/// id, so the robot's own cells are found by its user id.
pub open spec fn target_fits(bd: BattleData, skill: Skill, robot: &RobotData, near_scope: &SkillScopeTemp, t: Seq<usize>) -> bool {
    let ps = bd.battle_player@;
    let robot_id = robot.robot_id;
    let p = player_of(ps, robot_id);
    let cid = p.current_cter.0;
    let team = p.team_id;
    let f = skill.function_id;
    let n = bd.tile_map.map_cells@.len();
    if hp_max_skill(f) {
        t == opt_seq(found_cell(hp_max_fold(hp_max_cters(ps, robot_id, None))))
    } else if f == 223 {
        (t.len() == 0 && near_open_pick(bd, robot, near_scope, None))
            || (t.len() == 1 && near_open_pick(bd, robot, near_scope, Some(t[0])))
    } else if f == 411 {
        let lines = all_lines(bd, robot_id, n);
        (t.len() == 0 && line_pick(lines, None)) || line_pick(lines, Some((best_count(lines) as u32, t)))
    } else if f == 423 {
        t.len() == 1 && unpaired_pick(&bd.tile_map, robot, t[0])
    } else if f == 431 {
        most_or_empty(roundness_areas(bd, robot_id, true, false, true, true, Some(team), n), t)
    } else if f == 432 || f == 11008 || f == 12001 {
        most_or_empty(roundness_areas(bd, robot_id, false, false, false, false, Some(team), n), t)
    } else if f == 11005 || f == 13004 {
        t == opt_seq(found_cell(hp_max_fold(hp_max_cters(ps, robot_id, Some(team)))))
    } else if f == 11007 {
        pick_or_empty(triangle_areas(bd, robot_id, Some(team), n), t)
    } else if f == 11009 {
        t == enemy_cter_cells(all_cters(ps), team)
    } else if f == 12003 {
        t == seq![cter_of(bd, cid).get_map_cell_index_spec()]
    } else if f == 12004 {
        t == opt_seq(hp_min_cell(all_cters(ps), Some(team)))
    } else if f == 13002 {
        t == opt_seq(nearest_result(bd, cid, Some(team)))
    } else {
        t.len() == 0
    }
}

/// The cells of the living characters not of team `team` (see `enemy_cter_cells`).
fn enemy_cter_cells_of(battle_data: &BattleData, team: u8) -> (r: Vec<usize>)
    ensures
        r@ == enemy_cter_cells(all_cters(battle_data.battle_player@), team),
{
    let ghost ps = battle_data.battle_player@;
    let mut out: Vec<usize> = Vec::new();
    let mut i: usize = 0;
    while i < battle_data.battle_player.len()
        invariant
            ps == battle_data.battle_player@,
            i <= ps.len(),
            out@ == enemy_cter_cells(all_cters(ps.take(i as int)), team),
        decreases ps.len() - i,
    {
        let p = &battle_data.battle_player[i];
        let ghost before = all_cters(ps.take(i as int));
        proof {
            lemma_all_cters_next(ps, i as int);
        }
        let mut j: usize = 0;
        while j < p.cters.len()
            invariant
                *p == ps[i as int],
                j <= p.cters@.len(),
                out@ == enemy_cter_cells(before + p.cters@.take(j as int), team),
            decreases p.cters@.len() - j,
        {
            let c = &p.cters[j];
            proof {
                assert((before + p.cters@.take(j + 1)).drop_last() =~= before + p.cters@.take(j as int));
            }
            if !(c.is_died() || c.base_attr.team_id == team) {
                out.push(c.get_map_cell_index());
            }
            j = j + 1;
        }
        proof {
            assert(p.cters@.take(j as int) =~= p.cters@);
        }
        i = i + 1;
    }
    proof {
        assert(ps.take(ps.len() as int) =~= ps);
    }
    out
}

/// A list of the cell found, or an empty one.
fn cells_of(o: Option<usize>) -> (r: Vec<usize>)
    ensures
        r@ == opt_seq(o),
{
    let mut v: Vec<usize> = Vec::new();
    match o {
        Some(x) => {
            v.push(x);
        },
        None => {},
    }
    assert(v@ =~= opt_seq(o));
    v
}

/// A greatest area found, or an empty list.
fn area_or_empty(o: Option<Vec<usize>>) -> (r: Vec<usize>)
    ensures
        match o {
            Some(v) => r@ == v@,
            None => r@.len() == 0,
        },
{
    match o {
        Some(v) => v,
        None => Vec::new(),
    }
}

/// The targets a robot picks for `skill` by the rule of its function id
/// (see `target_fits`); `near_scope` is the ring round a cell.
pub fn skill_target(
    battle_data: &BattleData,
    skill: &Skill,
    robot: &RobotData,
    near_scope: &SkillScopeTemp,
) -> (r: Result<Vec<usize>, SkillTargetError>)
    requires
        battle_data.tile_map.wf(),
        scope_wf(near_scope),
        has_player(battle_data.battle_player@, robot.robot_id),
        player_alive(player_of(battle_data.battle_player@, robot.robot_id)),
        ({
            let p = player_of(battle_data.battle_player@, robot.robot_id);
            let f = skill.function_id;
            &&& f == 223 ==> has_cter(p.cters@, p.current_cter.0)
            &&& f == 423 ==> battle_data.tile_map.un_pair_map@.len() > 0
            &&& f == 12003 ==> live_cter(*battle_data, p.current_cter.0)
            &&& f == 13002 ==> (live_cter(*battle_data, p.current_cter.0) ==>
                cter_of(*battle_data, p.current_cter.0).get_map_cell_index_spec() < battle_data.tile_map.map_cells@.len())
        }),
    ensures
        unsupported_skill(skill.function_id) ==> r == Err::<Vec<usize>, SkillTargetError>(SkillTargetError::Unsupported(skill.function_id)),
        !unsupported_skill(skill.function_id) ==> (r matches Ok(t) && target_fits(*battle_data, *skill, robot, near_scope, t@)),
{
    let f = skill.function_id;
    let robot_id = robot.robot_id;
    let p = match battle_data.get_battle_player(Some(robot_id), true) {
        Ok(p) => p,
        Err(_) => {
            assert(false);
            return Ok(Vec::new());
        },
    };
    let cter_id = p.current_cter.0;
    let team_id = p.team_id;
    if f == 11004 || f == 12002 || f == 13005 {
        return Err(SkillTargetError::Unsupported(f));
    }
    let targets: Vec<usize> = if f == 123 || f == 331 || f == 433 || (20001 <= f && f <= 20005) {
        cells_of(get_hp_max_cter(battle_data, robot_id, None))
    } else if f == 223 {
        cells_of(skill_open_near_cell_robot(battle_data, robot, near_scope))
    } else if f == 411 {
        match get_line_aoe(robot_id, battle_data) {
            Some((_, v)) => v,
            None => Vec::new(),
        }
    } else if f == 423 {
        cells_of(rand_not_remember_map_cell(&battle_data.tile_map, robot))
    } else if f == 431 {
        area_or_empty(get_roundness_aoe(robot_id, battle_data, true, false, true, true, Some(team_id)))
    } else if f == 432 || f == 11008 || f == 12001 {
        area_or_empty(get_roundness_aoe(robot_id, battle_data, false, false, false, false, Some(team_id)))
    } else if f == 11005 || f == 13004 {
        cells_of(get_hp_max_cter(battle_data, robot_id, Some(team_id)))
    } else if f == 11007 {
        area_or_empty(get_triangle_aoe(robot_id, battle_data, Some(team_id)))
    } else if f == 11009 {
        enemy_cter_cells_of(battle_data, team_id)
    } else if f == 12003 {
        match battle_data.get_battle_cter(cter_id, true) {
            Ok(c) => {
                let v: Vec<usize> = vec![c.get_map_cell_index()];
                assert(v@ =~= seq![c.get_map_cell_index_spec()]);
                v
            },
            Err(_) => {
                assert(false);
                Vec::new()
            },
        }
    } else if f == 12004 {
        cells_of(get_hp_min_cter(battle_data, Some(team_id)))
    } else if f == 13002 {
        cells_of(get_nearest_cter(battle_data, cter_id, Some(team_id)))
    } else {
        Vec::new()
    };
    Ok(targets)
}

/// Whether character `cter` can use `skill` now (see `check_skill_useable`).
pub open spec fn skill_useable(cter: BattleCharacter, skill: Skill) -> bool {
    !(skill.skill_temp.consume_type != 1 && skill.cd_times > 0)
        && !(skill.skill_temp.consume_type == 1 && cter.base_attr.energy < skill.skill_temp.consume_value)
}

/// Whether a minion of `minons` stands where an enemy is in the ring round it.
pub open spec fn minion_threat(bd: BattleData, minons: Seq<u32>, near_scope: &SkillScopeTemp) -> bool {
    exists|k: int| 0 <= k < minons.len() && #[trigger] minion_sees_enemy(bd, minons[k], near_scope)
}

/// Whether the living minion `m` has an enemy in the ring round it.
pub open spec fn minion_sees_enemy(bd: BattleData, m: u32, near_scope: &SkillScopeTemp) -> bool {
    live_cter(bd, m) && scope_result(bd, m, cter_of(bd, m).get_map_cell_index_spec() as isize,
        TargetType::MapCellEnemys, None, near_scope).1.len() > 0
}

/// Whether the robot may use `skill` now, by the rule of its function id
/// (see `skill_condition`).
pub open spec fn condition_result(
    bd: BattleData,
    skill: Skill,
    robot: &RobotData,
    judge_temps: Seq<SkillJudgeTemp>,
    near_scope: &SkillScopeTemp,
) -> bool {
    let f = skill.function_id;
    let p = player_of(bd.battle_player@, robot.robot_id);
    let cid = p.current_cter.0;
    let cter = current_cter_of(p);
    let cd_ok = skill.cd_times == 0;
    if f == 431 {
        false
    } else if !skill_useable(cter, skill) {
        false
    } else if judge_result(bd, robot.robot_id, skill.skill_temp.skill_judge, Some(skill.id), judge_temps) is Err {
        false
    } else if f == 211 {
        p.status.attack_state == AttackState::Able
    } else if f == 223 {
        true
    } else if f == 313 || f == 321 {
        let near = scope_result(bd, cid, cter_of(bd, cid).get_map_cell_index_spec() as isize,
            TargetType::PlayerSelf, None, near_scope).1.len() > 0;
        if f == 313 { !near } else { near }
    } else if f == 331 {
        p.flow_data.pair_usable_skills@.contains(331u32)
    } else if f == 411 {
        let lines = all_lines(bd, robot.robot_id, bd.tile_map.map_cells@.len());
        lines.len() > 0 && (best_count(lines) > 1 || (best_count(lines) == 1 && alive_count(bd.battle_player@) == 2))
    } else if f == 12002 {
        if skill.is_active {
            false
        } else if exists|k: int| 0 <= k < cter.skills@.len() && #[trigger] cter.skills@[k].cd_times == 0 {
            false
        } else if p.status.attack_state == AttackState::Able {
            false
        } else if p.flow_data.residue_movement_points > 0 {
            false
        } else {
            cd_ok
        }
    } else if f == 13001 {
        if !skill.is_active {
            false
        } else if minion_threat(bd, cter.minons@, near_scope) {
            true
        } else {
            cd_ok
        }
    } else if f == 13004 {
        cter.minons@.len() > 0
    } else {
        cd_ok
    }
}

/// Whether a robot may use `skill` now: not the transformation skill (431);
/// the character acting now must be able to pay for it and its condition
/// must hold (conditions looked up in `judge_temps`); then each function id
/// has its own rule, and the default is that the cooldown is over (see
/// `condition_result`). `near_scope` is the ring round a cell.
#[verifier::loop_isolation(false)]
pub fn skill_condition(
    battle_data: &BattleData,
    skill: &Skill,
    robot: &RobotData,
    judge_temps: &Vec<SkillJudgeTemp>,
    near_scope: &SkillScopeTemp,
) -> (r: bool)
    requires
        battle_data.tile_map.wf(),
        scope_wf(near_scope),
        has_player(battle_data.battle_player@, robot.robot_id),
        player_alive(player_of(battle_data.battle_player@, robot.robot_id)),
        has_cter(player_of(battle_data.battle_player@, robot.robot_id).cters@,
            player_of(battle_data.battle_player@, robot.robot_id).current_cter.0),
        ({
            let cid = player_of(battle_data.battle_player@, robot.robot_id).current_cter.0;
            (skill.function_id == 313 || skill.function_id == 321) ==> (live_cter(*battle_data, cid)
                && cter_of(*battle_data, cid).get_map_cell_index_spec() <= isize::MAX)
        }),
    ensures
        r == condition_result(*battle_data, *skill, robot, judge_temps@, near_scope),
{
    broadcast use vstd::std_specs::hash::group_hash_axioms;
    let f = skill.function_id;
    if f == 431 {
        return false;
    }
    let robot_id = robot.robot_id;
    let p = match battle_data.get_battle_player(Some(robot_id), true) {
        Ok(p) => p,
        Err(_) => {
            assert(false);
            return false;
        },
    };
    let cter_id = p.current_cter.0;
    let can_use = skill.cd_times == 0;
    let cter = p.get_current_cter();
    proof {
        let a = choose|a: int| first_cter(p.cters@, p.current_cter.0, a) && *cter == #[trigger] p.cters@[a];
        let b = choose|b: int| first_cter(p.cters@, p.current_cter.0, b);
        lemma_first_cter_unique(p.cters@, p.current_cter.0, a, b);
        assert(*cter == current_cter_of(*p));
    }
    if check_skill_useable(cter, skill).is_err() {
        return false;
    }
    if battle_data.check_skill_judge(robot_id, skill.skill_temp.skill_judge, Some(skill.id), judge_temps).is_err() {
        return false;
    }
    if f == 211 {
        p.is_can_attack()
    } else if f == 223 {
        match skill_target(battle_data, skill, robot, near_scope) {
            Ok(_) => true,
            Err(_) => false,
        }
    } else if f == 313 {
        !near_user(battle_data, cter_id, near_scope)
    } else if f == 321 {
        near_user(battle_data, cter_id, near_scope)
    } else if f == 331 {
        pair_useable_skill(p)
    } else if f == 411 {
        match get_line_aoe(robot_id, battle_data) {
            Some((count, _)) => {
                let alive_num = battle_data.get_alive_player_num();
                if count > 1 {
                    true
                } else if count == 1 && alive_num == 2 {
                    true
                } else {
                    false
                }
            },
            None => false,
        }
    } else if f == 12002 {
        if skill.is_active {
            return false;
        }
        let mut k: usize = 0;
        while k < cter.skills.len()
            invariant
                *cter == current_cter_of(*p),
                k <= cter.skills@.len(),
                forall|j: int| 0 <= j < k ==> #[trigger] cter.skills@[j].cd_times != 0,
            decreases cter.skills@.len() - k,
        {
            if cter.skills[k].cd_times == 0 {
                return false;
            }
            k = k + 1;
        }
        if p.is_can_attack() {
            return false;
        }
        if p.flow_data.residue_movement_points > 0 {
            return false;
        }
        can_use
    } else if f == 13001 {
        if !skill.is_active {
            return false;
        }
        let mut k: usize = 0;
        while k < cter.minons.len()
            invariant
                *cter == current_cter_of(*p),
                battle_data.tile_map.wf(),
                scope_wf(near_scope),
                k <= cter.minons@.len(),
                forall|j: int| 0 <= j < k ==> !(#[trigger] minion_sees_enemy(*battle_data, cter.minons@[j], near_scope)),
            decreases cter.minons@.len() - k,
        {
            let minon_id = cter.minons[k];
            match battle_data.get_battle_cter(minon_id, true) {
                Err(_) => {},
                Ok(m) => {
                    let idx = m.get_map_cell_index() as isize;
                    let res = battle_data.cal_scope(minon_id, idx, TargetType::MapCellEnemys, None, None, near_scope);
                    assert(targets_view(None) == None::<Seq<u32>>);
                    if res.1.len() > 0 {
                        assert(minion_sees_enemy(*battle_data, cter.minons@[k as int], near_scope));
                        return true;
                    }
                },
            }
            k = k + 1;
        }
        can_use
    } else if f == 13004 {
        cter.minons.len() > 0
    } else {
        can_use
    }
}

/// The search of `get_hp_max_cter` keeps the highest hp: no counted
/// character has more hp than the one found (nor more than 0 where none is).
pub proof fn law_hp_max_is_highest(cs: Seq<BattleCharacter>)
    ensures
        hp_max_fold(cs).0 >= 0,
        forall|i: int| 0 <= i < cs.len() ==> (#[trigger] cs[i]).base_attr.hp <= hp_max_fold(cs).0,
    decreases cs.len(),
{
    if cs.len() > 0 {
        law_hp_max_is_highest(cs.drop_last());
        assert forall|i: int| 0 <= i < cs.len() implies (#[trigger] cs[i]).base_attr.hp <= hp_max_fold(cs).0 by {
            if i < cs.len() - 1 {
                assert(cs.drop_last()[i] == cs[i]);
            }
        }
    }
}

/// The search of `get_nearest_cter` finds no counted character nearer than
/// the one it answers: every living character not of the team, on a cell of
/// the map, is at least as far (and, as far, on a cell not before it).
pub proof fn law_nearest_is_nearest(bd: BattleData, cs: Seq<BattleCharacter>, res: int, team: u8)
    ensures
        forall|i: int| 0 <= i < cs.len() && (#[trigger] cs[i]).state != BattleCterState::Died
            && cs[i].base_attr.team_id != team
            && cs[i].get_map_cell_index_spec() < bd.tile_map.map_cells@.len() ==> ({
                let idx = cs[i].get_map_cell_index_spec();
                let cells = bd.tile_map.map_cells@;
                let value = abs_diff(res, cells[idx as int].x + cells[idx as int].y);
                nearest_fold(bd, cs, res, team) matches Some(b) && (b.0 < value || (b.0 == value && b.1 <= idx))
            }),
    decreases cs.len(),
{
    if cs.len() > 0 {
        law_nearest_is_nearest(bd, cs.drop_last(), res, team);
        assert forall|i: int| 0 <= i < cs.len() && (#[trigger] cs[i]).state != BattleCterState::Died
            && cs[i].base_attr.team_id != team
            && cs[i].get_map_cell_index_spec() < bd.tile_map.map_cells@.len() implies ({
                let idx = cs[i].get_map_cell_index_spec();
                let cells = bd.tile_map.map_cells@;
                let value = abs_diff(res, cells[idx as int].x + cells[idx as int].y);
                nearest_fold(bd, cs, res, team) matches Some(b) && (b.0 < value || (b.0 == value && b.1 <= idx))
            }) by {
            if i < cs.len() - 1 {
                assert(cs.drop_last()[i] == cs[i]);
            }
        }
    }
}

} // verus!
