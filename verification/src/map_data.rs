//! The tile map of a battle: its cells, their coordinates and their state.

use vstd::prelude::*;
use std::collections::HashSet;
use vstd::std_specs::iter::IteratorSpec;
use crate::battle_buff::Buff;
use crate::battle_cter::remove_buffs;
use crate::battle_handler::has_buff_id;
use crate::buff_type::LOCKED;

verus! {

/// Kind of a map slot.
#[derive(Debug, Clone, Copy, PartialEq, Eq, Structural)]
pub enum MapCellType {
    /// not part of the map
    InValid,
    /// part of the map, not in use
    UnUse,
    /// in use
    Valid,
}

impl MapCellType {
    /// The number that stands for this variant on the wire and in configuration.
    pub open spec fn code(self) -> u8 {
        match self {
            MapCellType::InValid => 0u8,
            MapCellType::UnUse => 1u8,
            MapCellType::Valid => 2u8,
        }
    }

    pub fn into_u8(self) -> (r: u8)
        ensures
            r == self.code(),
    {
        match self {
            MapCellType::InValid => 0,
            MapCellType::UnUse => 1,
            MapCellType::Valid => 2,
        }
    }

    pub fn into_u32(self) -> (r: u32)
        ensures
            r == self.code(),
    {
        match self {
            MapCellType::InValid => 0,
            MapCellType::UnUse => 1,
            MapCellType::Valid => 2,
        }
    }

    /// The variant whose code is `v`, if there is one.
    pub fn try_from_u8(v: u8) -> (r: Option<MapCellType>)
        ensures
            r matches Some(e) ==> e.code() == v,
            r is None <==> !(v == 0 || v == 1 || v == 2),
    {
        if v == 0 {
            Some(MapCellType::InValid)
        } else if v == 1 {
            Some(MapCellType::UnUse)
        } else if v == 2 {
            Some(MapCellType::Valid)
        } else {
            None
        }
    }
}

/// A cell of the map.
pub struct MapCell {
    /// configuration id of the cell
    pub id: u32,
    /// position of the cell in the map
    pub index: usize,
    /// kind of the slot the cell fills
    pub cell_type: MapCellType,
    /// effects of the cell
    pub buffs: Vec<Buff>,
    /// whether this is the world cell
    pub is_world: bool,
    /// element of the cell
    pub element: u8,
    /// ids of the buffs added by players
    pub passive_buffs: Vec<u32>,
    /// the player standing on the cell, 0 for none
    pub user_id: u32,
    /// the player who opened the cell, 0 for none
    pub open_user: u32,
    /// position of the cell it was paired with
    pub pair_index: Option<usize>,
    pub x: isize,
    pub y: isize,
}

/// The map of a battle.
pub struct TileMap {
    /// configuration id of the map
    pub id: u32,
    pub map_cells: Vec<MapCell>,
    /// world cells: (position, cell id)
    pub world_cell_map: Vec<(u32, u32)>,
    /// cells not paired yet: (position, cell id)
    pub un_pair_map: Vec<(usize, u32)>,
}

/// Largest distance of a coordinate from the origin on a well-formed map.
pub const COORD_LIMIT: isize = 1000000;

impl MapCell {
    /// Whether the cell carries the lock buff.
    pub fn check_is_locked(&self) -> (r: bool)
        ensures
            r == has_buff_id(self.buffs@, LOCKED),
    {
        let mut i: usize = 0;
        while i < self.buffs.len()
            invariant
                i <= self.buffs@.len(),
                forall|j: int| 0 <= j < i ==> #[trigger] self.buffs@[j].id != LOCKED,
            decreases self.buffs.len() - i,
        {
            if self.buffs[i].id == LOCKED {
                return true;
            }
            i = i + 1;
        }
        false
    }

    /// Removes buff `buff_id` from the cell.
    pub fn remove_buff(&mut self, buff_id: u32)
        ensures
            !has_buff_id(final(self).buffs@, buff_id),
            forall|b: Buff| #[trigger] final(self).buffs@.contains(b) <==> old(self).buffs@.contains(b) && b.id != buff_id,
            final(self).user_id == old(self).user_id,
            final(self).index == old(self).index,
            final(self).id == old(self).id,
    {
        remove_buffs(&mut self.buffs, buff_id);
    }

    pub fn is_world(&self) -> (r: bool)
        ensures
            r == self.is_world,
    {
        self.is_world
    }
}

/// Whether the coordinates of the map are unique and inside the limit.
pub open spec fn coords_wf(cells: Seq<MapCell>) -> bool {
    &&& forall|i: int| 0 <= i < cells.len() ==> -COORD_LIMIT <= #[trigger] cells[i].x <= COORD_LIMIT
        && -COORD_LIMIT <= cells[i].y <= COORD_LIMIT
    &&& forall|i: int, j: int| 0 <= i < j < cells.len() ==> !(#[trigger] cells[i].x == #[trigger] cells[j].x && cells[i].y == cells[j].y)
}

/// Whether every cell records its own position.
pub open spec fn indices_wf(cells: Seq<MapCell>) -> bool {
    forall|i: int| 0 <= i < cells.len() ==> #[trigger] cells[i].index == i
}

/// `i` is the position of the cell at coordinates `(x, y)`.
pub open spec fn cell_at(cells: Seq<MapCell>, x: int, y: int, i: int) -> bool {
    0 <= i < cells.len() && cells[i].x == x && cells[i].y == y
}

/// Whether some cell has coordinates `(x, y)`.
pub open spec fn has_cell_at(cells: Seq<MapCell>, x: int, y: int) -> bool {
    exists|i: int| #[trigger] cell_at(cells, x, y, i)
}

impl TileMap {
    /// Whether the map is well formed: unique coordinates inside the limit,
    /// and every cell records its own position.
    pub open spec fn wf(&self) -> bool {
        coords_wf(self.map_cells@) && indices_wf(self.map_cells@)
    }

    /// Position of the cell at coordinates `(x, y)`, if there is one.
    pub fn coord_index(&self, x: isize, y: isize) -> (r: Option<usize>)
        ensures
            r is None <==> !has_cell_at(self.map_cells@, x as int, y as int),
            r matches Some(i) ==> cell_at(self.map_cells@, x as int, y as int, i as int),
    {
        let mut i: usize = 0;
        while i < self.map_cells.len()
            invariant
                i <= self.map_cells@.len(),
                forall|j: int| 0 <= j < i ==> !cell_at(self.map_cells@, x as int, y as int, j),
            decreases self.map_cells.len() - i,
        {
            if self.map_cells[i].x == x && self.map_cells[i].y == y {
                assert(cell_at(self.map_cells@, x as int, y as int, i as int));
                return Some(i);
            }
            i = i + 1;
        }
        proof {
            assert forall|j: int| !cell_at(self.map_cells@, x as int, y as int, j) by {
                if 0 <= j < self.map_cells@.len() {
                }
            }
        }
        None
    }

    /// Position of the first cell player `user_id` stands on.
    pub fn get_map_cell_index_by_user_id(&self, user_id: u32) -> (r: Option<usize>)
        ensures
            r is None <==> forall|j: int| 0 <= j < self.map_cells@.len() ==> #[trigger] self.map_cells@[j].user_id != user_id,
            r matches Some(i) ==> i < self.map_cells@.len() && self.map_cells@[i as int].user_id == user_id
                && forall|j: int| 0 <= j < i ==> #[trigger] self.map_cells@[j].user_id != user_id,
    {
        let mut i: usize = 0;
        while i < self.map_cells.len()
            invariant
                i <= self.map_cells@.len(),
                forall|j: int| 0 <= j < i ==> #[trigger] self.map_cells@[j].user_id != user_id,
            decreases self.map_cells.len() - i,
        {
            if self.map_cells[i].user_id == user_id {
                return Some(i);
            }
            i = i + 1;
        }
        None
    }

    /// The first cell player `user_id` stands on, to be changed in place.
    pub fn get_map_cell_mut_by_user_id(&mut self, user_id: u32) -> (r: Option<&mut MapCell>)
        ensures
            r is None <==> forall|j: int| 0 <= j < old(self).map_cells@.len() ==> #[trigger] old(self).map_cells@[j].user_id != user_id,
            r is None ==> final(self).map_cells@ == old(self).map_cells@,
            r matches Some(c) ==> exists|i: int| 0 <= i < old(self).map_cells@.len()
                && old(self).map_cells@[i].user_id == user_id
                && (forall|j: int| 0 <= j < i ==> #[trigger] old(self).map_cells@[j].user_id != user_id)
                && *c == #[trigger] old(self).map_cells@[i]
                && final(self).map_cells@ == old(self).map_cells@.update(i, *final(c)),
            final(self).id == old(self).id,
    {
        match self.get_map_cell_index_by_user_id(user_id) {
            Some(i) => Some(&mut self.map_cells[i]),
            None => None,
        }
    }

    /// Takes player `user_id` off the first cell they stand on.
    pub fn remove_user(&mut self, user_id: u32)
        ensures
            user_removed(old(self).map_cells@, final(self).map_cells@, user_id),
            final(self).id == old(self).id,
            final(self).world_cell_map@ == old(self).world_cell_map@,
            final(self).un_pair_map@ == old(self).un_pair_map@,
    {
        match self.get_map_cell_index_by_user_id(user_id) {
            Some(i) => {
                let ghost c0 = self.map_cells@;
                self.map_cells[i].user_id = 0;
                proof {
                    assert(self.map_cells@ =~= c0.update(i as int, MapCell { user_id: 0, ..c0[i as int] }));
                }
            },
            None => {},
        }
    }
}

/// `c1` is the cells `c0` with player `user_id` taken off the first cell
/// they stand on; the same cells where they stand on none.
pub open spec fn user_removed(c0: Seq<MapCell>, c1: Seq<MapCell>, user_id: u32) -> bool {
    if forall|j: int| 0 <= j < c0.len() ==> #[trigger] c0[j].user_id != user_id {
        c1 == c0
    } else {
        exists|i: int| 0 <= i < c0.len() && c0[i].user_id == user_id
            && (forall|j: int| 0 <= j < i ==> #[trigger] c0[j].user_id != user_id)
            && c1 == c0.update(i, MapCell { user_id: 0, ..c0[i] })
    }
}

/// The elements of a set, as a list without repeats.
pub fn hs_2_v(hs: &HashSet<u32>) -> (r: Vec<u32>)
    ensures
        r@.to_set() == hs@,
        r@.no_duplicates(),
        r@.len() == hs@.len(),
{
    broadcast use vstd::std_specs::hash::group_hash_axioms;
    let mut v: Vec<u32> = Vec::new();
    let ghost all = vstd::std_specs::hash::spec_hash_keys_iter(hs).remaining();
    for i in it: hs.iter()
        invariant
            v@ == it.seq().take(it.index() as int).unref(),
            it.seq() == all,
    {
        proof {
            assert(it.seq().take(it.index() + 1) == it.seq().take(it.index() as int).push(it.seq()[it.index() as int]));
            assert(it.seq().take(it.index() + 1).unref() == it.seq().take(it.index() as int).unref().push(*it.seq()[it.index() as int]));
        }
        v.push(*i);
    }
    proof {
        assert(all.take(all.len() as int) == all);
    }
    v
}

/// Distinct variants of `MapCellType` have distinct numbers, so the variant read
/// back from a variant's number is that variant.
pub proof fn law_map_cell_type_codes_distinct(a: MapCellType, b: MapCellType)
    ensures
        a.code() == b.code() ==> a == b,
{
}

} // verus!
