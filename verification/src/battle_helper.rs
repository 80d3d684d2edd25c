//! Checks on the cells and players a request names, and the cells and
//! players an area around a cell covers.

use vstd::prelude::*;
use crate::battle::{BattleData, BattleError, first_player, has_player, player_alive, player_of};
use crate::battle_cter::{BaseAttr, BattleCharacter, healed_cter};
use crate::battle_enum::BattleCterState;
use crate::battle_player::BattlePlayer;
use crate::battle_enum::{ActionType, EffectType, TargetType};
use crate::battle_handler::has_buff_id;
use crate::buff_type::LOCKED;
use crate::map_data::{MapCell, MapCellType, cell_at, has_cell_at, COORD_LIMIT};
use crate::mission::vec_contains;
use crate::battle_player::{first_cter, gold_after, has_cter, BattleStatus, TurnFlowData};
use crate::battle_enum::AttackState;
use crate::map_data::TileMap;
use crate::mission::{MissionTriggerType, mission_triggered, player_triggers_ready, trigger_mission};
use crate::skill_judge_type::{HP_LIMIT_GT, LIMIT_ROUND_TIMES, LIMIT_TURN_TIMES, PAIR_LIMIT};

verus! {

/// Why a cell cannot be chosen.
#[derive(Debug, Clone, Copy, PartialEq, Eq, Structural)]
pub enum ChoiceError {
    /// the map has no cell at this position
    NoMapCell(usize),
    /// the cell is not in use
    NotChoosable(usize),
    /// the cell is closed
    Closed(usize),
    /// the cell is open
    Opened(usize),
    /// the cell is paired
    Paired(usize),
    /// the cell is the world cell
    World(usize),
    /// the cell is locked
    Locked(usize),
    /// someone stands on the cell
    HasUser(usize),
}

/// Why the targets of a request are refused.
#[derive(Debug, Clone, Copy, PartialEq, Eq, Structural)]
pub enum TargetError {
    /// a named cell cannot be chosen
    Choice(ChoiceError),
    /// a named player cannot be found
    Battle(BattleError),
    /// the targets do not fit the kind of target
    InvalidTargetType(TargetType),
    /// no player has this id
    NoPlayer(u32),
    /// the player named themselves where they may not
    IsSelf(u32),
}

/// What a cell check looks at: closed, open, paired, world, locked, someone on it.
pub type ChoiceFlags = (bool, bool, bool, bool, bool, bool);

/// Why cell `index` fails the check `f`, if it does; the reasons are tried
/// in the order of `ChoiceError`.
pub open spec fn choice_error(cells: Seq<MapCell>, index: int, f: ChoiceFlags) -> Option<ChoiceError> {
    if !(0 <= index < cells.len()) {
        Some(ChoiceError::NoMapCell(index as usize))
    } else {
        let c = cells[index];
        let i = index as usize;
        if c.cell_type != MapCellType::Valid {
            Some(ChoiceError::NotChoosable(i))
        } else if f.0 && c.open_user == 0 {
            Some(ChoiceError::Closed(i))
        } else if f.1 && c.open_user > 0 {
            Some(ChoiceError::Opened(i))
        } else if f.1 && c.pair_index is Some {
            Some(ChoiceError::Paired(i))
        } else if f.2 && c.pair_index is Some {
            Some(ChoiceError::Paired(i))
        } else if f.3 && c.is_world {
            Some(ChoiceError::World(i))
        } else if f.4 && has_buff_id(c.buffs@, LOCKED) {
            Some(ChoiceError::Locked(i))
        } else if f.5 && c.user_id > 0 {
            Some(ChoiceError::HasUser(i))
        } else {
            None
        }
    }
}

/// The first failure of the check `f` over the first `n` cells named in `ts`.
pub open spec fn cells_error(cells: Seq<MapCell>, ts: Seq<u32>, f: ChoiceFlags, n: nat) -> Option<ChoiceError>
    decreases n,
{
    if n == 0 {
        None
    } else {
        match cells_error(cells, ts, f, (n - 1) as nat) {
            Some(e) => Some(e),
            None => choice_error(cells, ts[n - 1] as int, f),
        }
    }
}

/// The player a lookup by cell finds on cell `index`: the user id, or why
/// there is none.
pub open spec fn cell_player(bd: BattleData, index: int) -> Result<u32, BattleError> {
    let cells = bd.tile_map.map_cells@;
    if !(0 <= index < cells.len()) {
        Err(BattleError::NoMapCell(index as usize))
    } else {
        let uid = cells[index].user_id;
        if uid == 0 {
            Err(BattleError::EmptyCell(index as usize))
        } else if !has_player(bd.battle_player@, uid) {
            Err(BattleError::NoPlayer(uid))
        } else if !player_alive(player_of(bd.battle_player@, uid)) {
            Err(BattleError::PlayerDied(uid))
        } else {
            Ok(player_of(bd.battle_player@, uid).user_id)
        }
    }
}

/// The players on the first `n` cells named in `ts`, or the first failure.
pub open spec fn cell_players(bd: BattleData, ts: Seq<u32>, n: nat) -> Result<Seq<u32>, BattleError>
    decreases n,
{
    if n == 0 {
        Ok(Seq::empty())
    } else {
        match cell_players(bd, ts, (n - 1) as nat) {
            Err(e) => Err(e),
            Ok(v) => match cell_player(bd, ts[n - 1] as int) {
                Err(e) => Err(e),
                Ok(u) => Ok(v.push(u)),
            },
        }
    }
}

/// The first failure of the players `v` as targets: one no player has, or
/// (where `self_id` is given) that player themselves.
pub open spec fn user_check(bd: BattleData, v: Seq<u32>, self_id: Option<u32>) -> Result<(), TargetError>
    decreases v.len(),
{
    if v.len() == 0 {
        Ok(())
    } else {
        match user_check(bd, v.drop_last(), self_id) {
            Err(e) => Err(e),
            Ok(_) => {
                let m = v.last();
                if !has_player(bd.battle_player@, m) {
                    Err(TargetError::NoPlayer(m))
                } else if self_id == Some(m) {
                    Err(TargetError::IsSelf(m))
                } else {
                    Ok(())
                }
            },
        }
    }
}

/// The check every named cell must pass for a kind of target that names
/// cells, if it is one.
pub open spec fn cell_flags(tt: TargetType) -> Option<ChoiceFlags> {
    match tt {
        TargetType::MapCell => Some((false, false, false, false, false, false)),
        TargetType::UnOpenMapCell => Some((false, true, true, true, false, false)),
        TargetType::UnPairMapCell => Some((false, false, true, true, true, false)),
        TargetType::NullMapCell => Some((false, false, false, true, false, true)),
        TargetType::UnPairNullMapCell => Some((false, false, false, false, false, true)),
        TargetType::OpenedMapCell => Some((true, false, false, true, false, false)),
        TargetType::UnOpenMapCellAndUnLock => Some((false, true, false, true, true, false)),
        TargetType::UnLockNullMapCell => Some((false, false, false, true, true, true)),
        TargetType::UnOpenNullMapCell => Some((false, true, true, true, false, true)),
        _ => None,
    }
}

/// Whether the players of a kind of target leave out the one who acts.
pub open spec fn excludes_self(tt: TargetType) -> bool {
    tt == TargetType::OtherAllPlayer || tt == TargetType::SelfScopeOthers
        || tt == TargetType::SelfScopeAnyOthers || tt == TargetType::OtherAnyPlayer
}

/// The first player named, checked as a target.
pub open spec fn first_user_check(bd: BattleData, ts: Seq<u32>, self_id: Option<u32>) -> Result<(), TargetError> {
    match cell_player(bd, ts[0] as int) {
        Err(e) => Err(TargetError::Battle(e)),
        Ok(u) => user_check(bd, seq![u], self_id),
    }
}

/// Every player named, checked as targets.
pub open spec fn all_user_check(bd: BattleData, ts: Seq<u32>, self_id: Option<u32>) -> Result<(), TargetError> {
    match cell_players(bd, ts, ts.len()) {
        Err(e) => Err(TargetError::Battle(e)),
        Ok(v) => user_check(bd, v, self_id),
    }
}

/// The answer to targets `ts` (cell positions, the first the centre) of
/// kind `tt` named by player `user_id`: no targets pass; the centre must be
/// a cell in use other than the world cell; then each kind checks its own.
pub open spec fn target_array_check(bd: BattleData, user_id: u32, tt: TargetType, ts: Seq<u32>) -> Result<(), TargetError> {
    let cells = bd.tile_map.map_cells@;
    if ts.len() == 0 {
        Ok(())
    } else {
        match choice_error(cells, ts[0] as int, (false, false, false, true, false, false)) {
            Some(e) => Err(TargetError::Choice(e)),
            None => {
                if tt == TargetType::Invalid {
                    Err(TargetError::InvalidTargetType(tt))
                } else if tt == TargetType::AnyPlayer {
                    first_user_check(bd, ts, None)
                } else if tt == TargetType::PlayerSelf {
                    if ts.len() > 1 {
                        Err(TargetError::InvalidTargetType(tt))
                    } else {
                        match cell_player(bd, ts[0] as int) {
                            Err(e) => Err(TargetError::Battle(e)),
                            Ok(u) => if u != user_id { Err(TargetError::InvalidTargetType(tt)) } else { Ok(()) },
                        }
                    }
                } else if tt == TargetType::AllPlayer {
                    all_user_check(bd, ts, None)
                } else if tt == TargetType::OtherAllPlayer {
                    all_user_check(bd, ts, Some(user_id))
                } else if tt == TargetType::OtherAnyPlayer || tt == TargetType::SelfScopeOthers {
                    first_user_check(bd, ts, Some(user_id))
                } else {
                    match cell_flags(tt) {
                        Some(f) => match cells_error(cells, ts, f, ts.len()) {
                            Some(e) => Err(TargetError::Choice(e)),
                            None => Ok(()),
                        },
                        None => Ok(()),
                    }
                }
            },
        }
    }
}

/// A player named first among the players checked, where it is a player of
/// the battle, is refused as itself where the check leaves the actor out.
proof fn lemma_user_check_first_self(bd: BattleData, v: Seq<u32>, u: u32)
    requires
        v.len() > 0,
        v[0] == u,
        has_player(bd.battle_player@, u),
    ensures
        user_check(bd, v, Some(u)) == Err::<(), TargetError>(TargetError::IsSelf(u)),
    decreases v.len(),
{
    if v.len() > 1 {
        assert(v.drop_last()[0] == u);
        lemma_user_check_first_self(bd, v.drop_last(), u);
    } else {
        assert(v.drop_last().len() == 0);
        assert(user_check(bd, v.drop_last(), Some(u)) == Ok::<(), TargetError>(()));
        assert(v.last() == u);
    }
}

/// Where every one of the first `n` named cells holds a player in the
/// battle, the players found are those players, in order.
proof fn lemma_cell_players_all(bd: BattleData, ts: Seq<u32>, n: nat)
    requires
        n <= ts.len(),
        forall|k: int| 0 <= k < n ==> #[trigger] cell_player(bd, ts[k] as int) is Ok,
    ensures
        cell_players(bd, ts, n) is Ok,
        cell_players(bd, ts, n) matches Ok(v) ==> v.len() == n
            && forall|k: int| 0 <= k < n ==> cell_player(bd, ts[k] as int) == Ok::<u32, BattleError>(#[trigger] v[k]),
    decreases n,
{
    if n > 0 {
        lemma_cell_players_all(bd, ts, (n - 1) as nat);
        assert(cell_player(bd, ts[n - 1] as int) is Ok);
    }
}

/// For the kinds of target that leave out the one who acts (any other
/// player, all other players, the others round oneself): where the first
/// named cell is a usable cell on which the acting player, still in the
/// battle, stands (and, for all other players, every named cell holds a
/// player in the battle), the targets are refused as the actor itself.
pub proof fn law_others_refuse_the_actor(bd: BattleData, user_id: u32, tt: TargetType, ts: Seq<u32>)
    requires
        tt == TargetType::OtherAnyPlayer || tt == TargetType::OtherAllPlayer || tt == TargetType::SelfScopeOthers,
        ts.len() > 0,
        choice_error(bd.tile_map.map_cells@, ts[0] as int, (false, false, false, true, false, false)) is None,
        (ts[0] as int) < bd.tile_map.map_cells@.len(),
        bd.tile_map.map_cells@[ts[0] as int].user_id == user_id,
        user_id != 0,
        has_player(bd.battle_player@, user_id),
        player_alive(player_of(bd.battle_player@, user_id)),
        tt == TargetType::OtherAllPlayer ==> forall|k: int| 0 <= k < ts.len() ==> #[trigger] cell_player(bd, ts[k] as int) is Ok,
    ensures
        target_array_check(bd, user_id, tt, ts) == Err::<(), TargetError>(TargetError::IsSelf(user_id)),
{
    let ps = bd.battle_player@;
    crate::battle::lemma_has_player_first(ps, user_id);
    let i = choose|i: int| first_player(ps, user_id, i);
    assert(player_of(ps, user_id).user_id == user_id);
    assert(cell_player(bd, ts[0] as int) == Ok::<u32, BattleError>(user_id));
    if tt == TargetType::OtherAllPlayer {
        lemma_cell_players_all(bd, ts, ts.len());
        let v = cell_players(bd, ts, ts.len()).get_Ok_0();
        assert(cell_player(bd, ts[0] as int) == Ok::<u32, BattleError>(v[0]));
        lemma_user_check_first_self(bd, v, user_id);
    } else {
        lemma_user_check_first_self(bd, seq![user_id], user_id);
    }
}

/// A cell offset of an area.
#[derive(Debug, Clone, Copy, PartialEq, Eq, Structural)]
pub struct Coord2d {
    pub x: isize,
    pub y: isize,
}

/// The offsets of an area in one direction.
pub struct Direction2d {
    pub direction2d: Vec<Coord2d>,
}

/// The shape of an area: its offsets, direction by direction.
pub struct SkillScopeTemp {
    pub id: u32,
    pub scope2d: Vec<Direction2d>,
}

/// The offsets of the first `n` directions, in order.
pub open spec fn scope_coords(dirs: Seq<Direction2d>, n: nat) -> Seq<Coord2d>
    decreases n,
{
    if n == 0 || n > dirs.len() {
        Seq::empty()
    } else {
        scope_coords(dirs, (n - 1) as nat) + dirs[n - 1].direction2d@
    }
}

/// Whether every offset of an area lies inside the coordinate limit.
pub open spec fn scope_wf(s: &SkillScopeTemp) -> bool {
    forall|i: int, j: int| 0 <= i < s.scope2d@.len() && 0 <= j < s.scope2d@[i].direction2d@.len()
        ==> -COORD_LIMIT <= (#[trigger] s.scope2d@[i].direction2d@[j]).x <= COORD_LIMIT
            && -COORD_LIMIT <= s.scope2d@[i].direction2d@[j].y <= COORD_LIMIT
}

/// Whether the player on a cell counts: someone stands there, they are not
/// `user_id` where the kind leaves the actor out, and they are still in the battle.
pub open spec fn scope_user_counts(bd: BattleData, user_id: u32, tt: TargetType, uid: u32) -> bool {
    &&& uid != 0
    &&& !(excludes_self(tt) && uid == user_id)
    &&& has_player(bd.battle_player@, uid)
    &&& player_alive(player_of(bd.battle_player@, uid))
}

/// One offset of an area walked from centre `(cx, cy)`: the cell there, if
/// any, joins the cells; its player joins the players where they count and,
/// with `targets`, where the cell is a target and the player is not there yet.
pub open spec fn scope_step(
    bd: BattleData,
    user_id: u32,
    tt: TargetType,
    targets: Option<Seq<u32>>,
    st: (Seq<usize>, Seq<u32>),
    cx: int,
    cy: int,
    c: Coord2d,
) -> (Seq<usize>, Seq<u32>) {
    let cells = bd.tile_map.map_cells@;
    let x = cx + c.x;
    let y = cy + c.y;
    if !has_cell_at(cells, x, y) {
        st
    } else {
        let i = choose|i: int| cell_at(cells, x, y, i);
        let cell = cells[i];
        let v = st.0.push(i as usize);
        let uid = cell.user_id;
        match targets {
            None => if scope_user_counts(bd, user_id, tt, uid) { (v, st.1.push(uid)) } else { (v, st.1) },
            Some(ts) => if ts.contains(cell.index as u32) && scope_user_counts(bd, user_id, tt, uid)
                && !st.1.contains(uid) {
                (v, st.1.push(uid))
            } else {
                (v, st.1)
            },
        }
    }
}

/// An area walked offset by offset (see `scope_step`).
pub open spec fn scope_walk(
    bd: BattleData,
    user_id: u32,
    tt: TargetType,
    targets: Option<Seq<u32>>,
    cx: int,
    cy: int,
    coords: Seq<Coord2d>,
) -> (Seq<usize>, Seq<u32>)
    decreases coords.len(),
{
    if coords.len() == 0 {
        (Seq::empty(), Seq::empty())
    } else {
        let prev = scope_walk(bd, user_id, tt, targets, cx, cy, coords.drop_last());
        scope_step(bd, user_id, tt, targets, prev, cx, cy, coords.last())
    }
}

/// The check every named cell must pass for a kind of target that names
/// cells, if it is one (see `cell_flags`).
fn cell_flags_exec(tt: TargetType) -> (r: Option<ChoiceFlags>)
    ensures
        r == cell_flags(tt),
{
    match tt {
        TargetType::MapCell => Some((false, false, false, false, false, false)),
        TargetType::UnOpenMapCell => Some((false, true, true, true, false, false)),
        TargetType::UnPairMapCell => Some((false, false, true, true, true, false)),
        TargetType::NullMapCell => Some((false, false, false, true, false, true)),
        TargetType::UnPairNullMapCell => Some((false, false, false, false, false, true)),
        TargetType::OpenedMapCell => Some((true, false, false, true, false, false)),
        TargetType::UnOpenMapCellAndUnLock => Some((false, true, false, true, true, false)),
        TargetType::UnLockNullMapCell => Some((false, false, false, true, true, true)),
        TargetType::UnOpenNullMapCell => Some((false, true, true, true, false, true)),
        _ => None,
    }
}

impl BattleData {
    /// Checks that cell `index` can be chosen (see `choice_error`).
    pub fn check_choice_index(
        &self,
        index: usize,
        is_check_close: bool,
        is_check_open: bool,
        is_check_pair: bool,
        is_check_world: bool,
        is_check_locked: bool,
        is_check_has_user: bool,
    ) -> (r: Result<(), ChoiceError>)
        ensures
            ({
                let f = (is_check_close, is_check_open, is_check_pair, is_check_world, is_check_locked, is_check_has_user);
                match choice_error(self.tile_map.map_cells@, index as int, f) {
                    Some(e) => r == Err::<(), ChoiceError>(e),
                    None => r == Ok::<(), ChoiceError>(()),
                }
            }),
    {
        if index >= self.tile_map.map_cells.len() {
            return Err(ChoiceError::NoMapCell(index));
        }
        let c = &self.tile_map.map_cells[index];
        if c.cell_type != MapCellType::Valid {
            return Err(ChoiceError::NotChoosable(index));
        }
        if is_check_close && c.open_user == 0 {
            return Err(ChoiceError::Closed(index));
        }
        if is_check_open && c.open_user > 0 {
            return Err(ChoiceError::Opened(index));
        } else if is_check_open && c.pair_index.is_some() {
            return Err(ChoiceError::Paired(index));
        }
        if is_check_pair && c.pair_index.is_some() {
            return Err(ChoiceError::Paired(index));
        }
        if is_check_world && c.is_world() {
            return Err(ChoiceError::World(index));
        }
        if is_check_locked && c.check_is_locked() {
            return Err(ChoiceError::Locked(index));
        }
        if is_check_has_user && c.user_id > 0 {
            return Err(ChoiceError::HasUser(index));
        }
        Ok(())
    }

    /// Checks every cell named in `ts` in order (see `cells_error`).
    fn check_cells(&self, ts: &[u32], f: ChoiceFlags) -> (r: Result<(), ChoiceError>)
        ensures
            match cells_error(self.tile_map.map_cells@, ts@, f, ts@.len()) {
                Some(e) => r == Err::<(), ChoiceError>(e),
                None => r == Ok::<(), ChoiceError>(()),
            },
    {
        let mut i: usize = 0;
        while i < ts.len()
            invariant
                i <= ts@.len(),
                cells_error(self.tile_map.map_cells@, ts@, f, i as nat) is None,
            decreases ts.len() - i,
        {
            let index = ts[i] as usize;
            match self.check_choice_index(index, f.0, f.1, f.2, f.3, f.4, f.5) {
                Err(e) => {
                    assert(cells_error(self.tile_map.map_cells@, ts@, f, (i + 1) as nat) == Some(e));
                    proof {
                        lemma_cells_error_stays(self.tile_map.map_cells@, ts@, f, (i + 1) as nat, ts@.len());
                    }
                    return Err(e);
                },
                Ok(_) => {},
            }
            i = i + 1;
        }
        Ok(())
    }

    /// The player on cell `index` (see `cell_player`).
    fn player_on_cell(&self, index: usize) -> (r: Result<u32, BattleError>)
        ensures
            r == cell_player(*self, index as int),
    {
        match self.get_battle_player_by_map_cell_index(index) {
            Err(e) => Err(e),
            Ok(p) => Ok(p.user_id),
        }
    }

    /// The players on the cells named in `ts`, in order (see `cell_players`).
    fn players_on_cells(&self, ts: &[u32]) -> (r: Result<Vec<u32>, BattleError>)
        ensures
            match cell_players(*self, ts@, ts@.len()) {
                Err(e) => r == Err::<Vec<u32>, BattleError>(e),
                Ok(v) => r matches Ok(w) && w@ == v,
            },
    {
        let mut out: Vec<u32> = Vec::new();
        let mut i: usize = 0;
        while i < ts.len()
            invariant
                i <= ts@.len(),
                cell_players(*self, ts@, i as nat) == Ok::<Seq<u32>, BattleError>(out@),
            decreases ts.len() - i,
        {
            match self.player_on_cell(ts[i] as usize) {
                Err(e) => {
                    proof {
                        lemma_cell_players_stays(*self, ts@, (i + 1) as nat, ts@.len());
                    }
                    return Err(e);
                },
                Ok(u) => {
                    out.push(u);
                },
            }
            i = i + 1;
        }
        Ok(out)
    }

    /// Checks the players `vec` as targets: each must be a player and, where
    /// `check_self_id` is given, not that player (see `user_check`).
    pub fn check_user_target(&self, vec: &[u32], check_self_id: Option<u32>) -> (r: Result<(), TargetError>)
        ensures
            r == user_check(*self, vec@, check_self_id),
    {
        let mut i: usize = 0;
        while i < vec.len()
            invariant
                i <= vec@.len(),
                user_check(*self, vec@.take(i as int), check_self_id) is Ok,
            decreases vec.len() - i,
        {
            let m = vec[i];
            assert(vec@.take(i + 1).drop_last() =~= vec@.take(i as int));
            let found = match crate::battle::player_position(&self.battle_player, m) {
                Some(_) => true,
                None => false,
            };
            if !found {
                proof {
                    lemma_user_check_stays(*self, vec@, check_self_id, i + 1);
                }
                return Err(TargetError::NoPlayer(m));
            }
            match check_self_id {
                Some(s) => {
                    if m == s {
                        proof {
                            lemma_user_check_stays(*self, vec@, check_self_id, i + 1);
                        }
                        return Err(TargetError::IsSelf(m));
                    }
                },
                None => {},
            }
            i = i + 1;
        }
        assert(vec@.take(vec@.len() as int) =~= vec@);
        Ok(())
    }

    /// Checks the targets of a request (see `target_array_check`).
    pub fn check_target_array(&self, user_id: u32, target_type: TargetType, target_array: &[u32]) -> (r: Result<(), TargetError>)
        ensures
            r == target_array_check(*self, user_id, target_type, target_array@),
    {
        if target_array.len() == 0 {
            return Ok(());
        }
        let center_index = target_array[0] as usize;
        match self.check_choice_index(center_index, false, false, false, true, false, false) {
            Err(e) => return Err(TargetError::Choice(e)),
            Ok(_) => {},
        }
        let r = match target_type {
            TargetType::Invalid => Err(TargetError::InvalidTargetType(target_type)),
            TargetType::AnyPlayer => self.check_first_user(target_array, None),
            TargetType::PlayerSelf => {
                if target_array.len() > 1 {
                    Err(TargetError::InvalidTargetType(target_type))
                } else {
                    match self.player_on_cell(center_index) {
                        Err(e) => Err(TargetError::Battle(e)),
                        Ok(u) => {
                            if u != user_id {
                                Err(TargetError::InvalidTargetType(target_type))
                            } else {
                                Ok(())
                            }
                        },
                    }
                }
            },
            TargetType::AllPlayer => self.check_all_users(target_array, None),
            TargetType::OtherAllPlayer => self.check_all_users(target_array, Some(user_id)),
            TargetType::OtherAnyPlayer => self.check_first_user(target_array, Some(user_id)),
            TargetType::SelfScopeOthers => self.check_first_user(target_array, Some(user_id)),
            _ => match cell_flags_exec(target_type) {
                Some(f) => self.check_cells_as_targets(target_array, f),
                None => Ok(()),
            },
        };
        r
    }

    fn check_cells_as_targets(&self, ts: &[u32], f: ChoiceFlags) -> (r: Result<(), TargetError>)
        ensures
            match cells_error(self.tile_map.map_cells@, ts@, f, ts@.len()) {
                Some(e) => r == Err::<(), TargetError>(TargetError::Choice(e)),
                None => r == Ok::<(), TargetError>(()),
            },
    {
        match self.check_cells(ts, f) {
            Err(e) => Err(TargetError::Choice(e)),
            Ok(_) => Ok(()),
        }
    }

    fn check_first_user(&self, ts: &[u32], self_id: Option<u32>) -> (r: Result<(), TargetError>)
        requires
            ts@.len() > 0,
        ensures
            r == first_user_check(*self, ts@, self_id),
    {
        match self.player_on_cell(ts[0] as usize) {
            Err(e) => Err(TargetError::Battle(e)),
            Ok(u) => {
                let v: Vec<u32> = vec![u];
                assert(v@ =~= seq![u]);
                self.check_user_target(v.as_slice(), self_id)
            },
        }
    }

    fn check_all_users(&self, ts: &[u32], self_id: Option<u32>) -> (r: Result<(), TargetError>)
        ensures
            r == all_user_check(*self, ts@, self_id),
    {
        match self.players_on_cells(ts) {
            Err(e) => Err(TargetError::Battle(e)),
            Ok(v) => self.check_user_target(v.as_slice(), self_id),
        }
    }
}

/// The area an area query walks: the one given, else (with no targets) the
/// ring round the centre.
pub open spec fn chosen_scope<'a>(scope_temp: Option<&'a SkillScopeTemp>, near_scope: &'a SkillScopeTemp) -> &'a SkillScopeTemp {
    match scope_temp {
        Some(s) => s,
        None => near_scope,
    }
}

/// What an area query answers (see `BattleData::cal_scope`).
pub open spec fn scope_result(
    bd: BattleData,
    user_id: u32,
    center_index: isize,
    tt: TargetType,
    targets: Option<Seq<u32>>,
    scope: &SkillScopeTemp,
) -> (Seq<usize>, Seq<u32>) {
    let cells = bd.tile_map.map_cells@;
    if center_index < 0 || center_index >= cells.len() {
        (Seq::empty(), Seq::empty())
    } else {
        let c = cells[center_index as int];
        scope_walk(bd, user_id, tt, targets, c.x as int, c.y as int, scope_coords(scope.scope2d@, scope.scope2d@.len()))
    }
}

/// The view of an optional list of targets.
pub open spec fn targets_view(t: Option<Vec<u32>>) -> Option<Seq<u32>> {
    match t {
        Some(v) => Some(v@),
        None => None,
    }
}

impl BattleData {
    /// One offset of an area walked from centre `(cx, cy)` (see `scope_step`).
    fn scope_step_at(
        &self,
        v: &mut Vec<usize>,
        vu: &mut Vec<u32>,
        user_id: u32,
        tt: TargetType,
        targets: &Option<Vec<u32>>,
        cx: isize,
        cy: isize,
        c: Coord2d,
    )
        requires
            self.tile_map.wf(),
            -COORD_LIMIT <= cx <= COORD_LIMIT,
            -COORD_LIMIT <= cy <= COORD_LIMIT,
            -COORD_LIMIT <= c.x <= COORD_LIMIT,
            -COORD_LIMIT <= c.y <= COORD_LIMIT,
        ensures
            (final(v)@, final(vu)@) == scope_step(*self, user_id, tt, targets_view(*targets), (old(v)@, old(vu)@), cx as int, cy as int, c),
    {
        let ghost cells = self.tile_map.map_cells@;
        match self.tile_map.coord_index(cx + c.x, cy + c.y) {
            None => {},
            Some(i) => {
                proof {
                    let k = choose|k: int| #[trigger] cell_at(cells, cx + c.x, cy + c.y, k);
                    if k != i as int {
                        if k < i {
                            assert(!(cells[k].x == cells[i as int].x && cells[k].y == cells[i as int].y));
                        } else {
                            assert(!(cells[i as int].x == cells[k].x && cells[i as int].y == cells[k].y));
                        }
                    }
                }
                v.push(i);
                let uid = self.tile_map.map_cells[i].user_id;
                let excluded = (tt == TargetType::OtherAllPlayer || tt == TargetType::SelfScopeOthers
                    || tt == TargetType::SelfScopeAnyOthers || tt == TargetType::OtherAnyPlayer) && uid == user_id;
                let counts = uid != 0 && !excluded && self.get_battle_player(Some(uid), true).is_ok();
                match targets {
                    None => {
                        if counts {
                            vu.push(uid);
                        }
                    },
                    Some(ts) => {
                        let index = self.tile_map.map_cells[i].index as u32;
                        if vec_contains(ts, index) && counts && !vec_contains(vu, uid) {
                            vu.push(uid);
                        }
                    },
                }
            },
        }
    }

    /// The cells an area centred on cell `center_index` covers, in the
    /// order of its offsets, and the players on them who count: someone
    /// stands there, they are not `user_id` where the kind of target leaves
    /// the actor out, and they are still in the battle. With `targets`, a
    /// player counts only on a target cell, and once. The area is
    /// `scope_temp`, or with neither targets nor area the ring round the
    /// centre, `near_scope`. A centre off the map covers nothing.
    pub fn cal_scope(
        &self,
        user_id: u32,
        center_index: isize,
        target_type: TargetType,
        targets: Option<Vec<u32>>,
        scope_temp: Option<&SkillScopeTemp>,
        near_scope: &SkillScopeTemp,
    ) -> (r: (Vec<usize>, Vec<u32>))
        requires
            self.tile_map.wf(),
            targets is Some ==> scope_temp is Some,
            scope_wf(chosen_scope(scope_temp, near_scope)),
        ensures
            (r.0@, r.1@) == scope_result(*self, user_id, center_index, target_type, targets_view(targets),
                chosen_scope(scope_temp, near_scope)),
    {
        let mut v: Vec<usize> = Vec::new();
        let mut vu: Vec<u32> = Vec::new();
        if center_index < 0 || center_index as usize >= self.tile_map.map_cells.len() {
            return (v, vu);
        }
        let scope: &SkillScopeTemp = match scope_temp {
            Some(s) => s,
            None => near_scope,
        };
        let cx = self.tile_map.map_cells[center_index as usize].x;
        let cy = self.tile_map.map_cells[center_index as usize].y;
        assert(-COORD_LIMIT <= self.tile_map.map_cells@[center_index as int].x <= COORD_LIMIT);
        let ghost dirs = scope.scope2d@;
        let ghost tv = targets_view(targets);
        let mut i: usize = 0;
        while i < scope.scope2d.len()
            invariant
                dirs == scope.scope2d@,
                scope_wf(scope),
                self.tile_map.wf(),
                tv == targets_view(targets),
                i <= dirs.len(),
                -COORD_LIMIT <= cx <= COORD_LIMIT,
                -COORD_LIMIT <= cy <= COORD_LIMIT,
                (v@, vu@) == scope_walk(*self, user_id, target_type, tv, cx as int, cy as int, scope_coords(dirs, i as nat)),
            decreases dirs.len() - i,
        {
            let dir = &scope.scope2d[i];
            let ghost base = scope_coords(dirs, i as nat);
            let mut j: usize = 0;
            while j < dir.direction2d.len()
                invariant
                    dirs == scope.scope2d@,
                    scope_wf(scope),
                    self.tile_map.wf(),
                    tv == targets_view(targets),
                    i < dirs.len(),
                    *dir == dirs[i as int],
                    j <= dir.direction2d@.len(),
                    -COORD_LIMIT <= cx <= COORD_LIMIT,
                    -COORD_LIMIT <= cy <= COORD_LIMIT,
                    (v@, vu@) == scope_walk(*self, user_id, target_type, tv, cx as int, cy as int,
                        base + dir.direction2d@.take(j as int)),
                decreases dir.direction2d.len() - j,
            {
                let c = dir.direction2d[j];
                assert(-COORD_LIMIT <= scope.scope2d@[i as int].direction2d@[j as int].x <= COORD_LIMIT);
                let ghost before = base + dir.direction2d@.take(j as int);
                self.scope_step_at(&mut v, &mut vu, user_id, target_type, &targets, cx, cy, c);
                j = j + 1;
                proof {
                    let after = base + dir.direction2d@.take(j as int);
                    assert(after.drop_last() =~= before);
                    assert(after.last() == c);
                }
            }
            proof {
                assert(dir.direction2d@.take(j as int) =~= dir.direction2d@);
            }
            i = i + 1;
        }
        (v, vu)
    }
}

/// The characters of the players `ps`, player by player.
pub open spec fn all_cters(ps: Seq<BattlePlayer>) -> Seq<BattleCharacter>
    decreases ps.len(),
{
    if ps.len() == 0 {
        Seq::empty()
    } else {
        all_cters(ps.drop_last()) + ps.last().cters@
    }
}

/// `k` is the position among all characters of the first one with id `cter_id`.
pub open spec fn first_cter_in(cs: Seq<BattleCharacter>, cter_id: u32, k: int) -> bool {
    &&& 0 <= k < cs.len()
    &&& cs[k].base_attr.cter_id == cter_id
    &&& forall|j: int| 0 <= j < k ==> #[trigger] cs[j].base_attr.cter_id != cter_id
}

/// The characters of the first players are the first characters.
pub proof fn lemma_all_cters_prefix(ps: Seq<BattlePlayer>, i: int)
    requires
        0 <= i <= ps.len(),
    ensures
        all_cters(ps.take(i)).len() <= all_cters(ps).len(),
        forall|k: int| 0 <= k < all_cters(ps.take(i)).len() ==> #[trigger] all_cters(ps)[k] == all_cters(ps.take(i))[k],
    decreases ps.len(),
{
    if i == ps.len() {
        assert(ps.take(i) =~= ps);
    } else {
        assert(ps.drop_last().take(i) =~= ps.take(i));
        lemma_all_cters_prefix(ps.drop_last(), i);
    }
}

/// The characters of one more player come next.
pub proof fn lemma_all_cters_next(ps: Seq<BattlePlayer>, i: int)
    requires
        0 <= i < ps.len(),
    ensures
        all_cters(ps.take(i + 1)) == all_cters(ps.take(i)) + ps[i].cters@,
{
    assert(ps.take(i + 1).drop_last() =~= ps.take(i));
}

impl BattleData {
    /// The first character with id `cter_id`, player by player; with
    /// `is_alive`, only a living one.
    pub fn get_battle_cter(&self, cter_id: u32, is_alive: bool) -> (r: Result<&BattleCharacter, BattleError>)
        ensures
            ({
                let cs = all_cters(self.battle_player@);
                if !(exists|k: int| #[trigger] first_cter_in(cs, cter_id, k)) {
                    r == Err::<&BattleCharacter, BattleError>(BattleError::NoCter(cter_id))
                } else {
                    let k = choose|k: int| #[trigger] first_cter_in(cs, cter_id, k);
                    if is_alive && cs[k].state == BattleCterState::Died {
                        r == Err::<&BattleCharacter, BattleError>(BattleError::CterDied(cter_id))
                    } else {
                        r matches Ok(c) && *c == cs[k]
                    }
                }
            }),
    {
        let ghost ps = self.battle_player@;
        let mut i: usize = 0;
        while i < self.battle_player.len()
            invariant
                ps == self.battle_player@,
                i <= ps.len(),
                forall|k: int| 0 <= k < all_cters(ps.take(i as int)).len()
                    ==> #[trigger] all_cters(ps.take(i as int))[k].base_attr.cter_id != cter_id,
            decreases ps.len() - i,
        {
            let ghost before = all_cters(ps.take(i as int));
            proof {
                lemma_all_cters_next(ps, i as int);
            }
            let mut j: usize = 0;
            while j < self.battle_player[i].cters.len()
                invariant
                    ps == self.battle_player@,
                    i < ps.len(),
                    before == all_cters(ps.take(i as int)),
                    all_cters(ps.take(i + 1)) == before + ps[i as int].cters@,
                    j <= ps[i as int].cters@.len(),
                    forall|k: int| 0 <= k < before.len() ==> #[trigger] before[k].base_attr.cter_id != cter_id,
                    forall|k: int| 0 <= k < j ==> #[trigger] ps[i as int].cters@[k].base_attr.cter_id != cter_id,
                decreases ps[i as int].cters@.len() - j,
            {
                if self.battle_player[i].cters[j].base_attr.cter_id == cter_id {
                    proof {
                        let cs = all_cters(ps);
                        let k = before.len() + j;
                        lemma_all_cters_prefix(ps, i + 1);
                        let seen = all_cters(ps.take(i + 1));
                        assert(seen[k] == ps[i as int].cters@[j as int]);
                        assert forall|m: int| 0 <= m < k implies #[trigger] cs[m].base_attr.cter_id != cter_id by {
                            assert(cs[m] == seen[m]);
                            if m < before.len() {
                                assert(seen[m] == before[m]);
                            } else {
                                assert(seen[m] == ps[i as int].cters@[m - before.len()]);
                            }
                        }
                        assert(first_cter_in(cs, cter_id, k));
                        let k2 = choose|k2: int| #[trigger] first_cter_in(cs, cter_id, k2);
                        if k2 < k {
                            assert(cs[k2].base_attr.cter_id != cter_id);
                        } else if k < k2 {
                            assert(cs[k].base_attr.cter_id != cter_id);
                        }
                    }
                    let c = &self.battle_player[i].cters[j];
                    if is_alive && c.is_died() {
                        return Err(BattleError::CterDied(cter_id));
                    }
                    return Ok(c);
                }
                j = j + 1;
            }
            i = i + 1;
            proof {
                let seen = all_cters(ps.take(i as int));
                assert forall|k: int| 0 <= k < seen.len() implies #[trigger] seen[k].base_attr.cter_id != cter_id by {
                    if k < before.len() {
                        assert(seen[k] == before[k]);
                    } else {
                        assert(seen[k] == ps[i - 1].cters@[k - before.len()]);
                    }
                }
            }
        }
        proof {
            assert(ps.take(ps.len() as int) =~= ps);
        }
        Err(BattleError::NoCter(cter_id))
    }
}

/// The configured values of a condition checked before a skill is used.
#[derive(Debug, Clone, Copy, PartialEq, Eq, Structural)]
pub struct SkillJudgeTemp {
    pub id: u32,
    /// kind of target the condition applies to (see `TargetType`)
    pub target: u8,
    pub par1: u32,
}

/// Why a skill's condition is not met.
#[derive(Debug, Clone, Copy, PartialEq, Eq, Structural)]
pub enum JudgeError {
    /// no condition is configured with this id
    NoJudgeTemp(u32),
    /// the condition names no kind of target
    BadTargetType(u8),
    /// the character's hp is not above the bound
    HpLimit(u32),
    /// the skill was used this turn already
    TurnLimit(u32),
    /// the skill was used this round already
    RoundLimit(u32),
    /// the skill needs a pair first
    PairLimit(u32),
}

/// `i` is the position of the first condition with id `id`.
pub open spec fn first_judge(temps: Seq<SkillJudgeTemp>, id: u32, i: int) -> bool {
    &&& 0 <= i < temps.len()
    &&& temps[i].id == id
    &&& forall|j: int| 0 <= j < i ==> #[trigger] temps[j].id != id
}

/// The condition with id `id`, where one is configured.
pub open spec fn judge_of(temps: Seq<SkillJudgeTemp>, id: u32) -> Option<SkillJudgeTemp> {
    if exists|i: int| #[trigger] first_judge(temps, id, i) {
        Some(temps[choose|i: int| #[trigger] first_judge(temps, id, i)])
    } else {
        None
    }
}

/// A player's character acting now.
pub open spec fn current_cter_of(p: BattlePlayer) -> BattleCharacter {
    p.cters@[choose|i: int| first_cter(p.cters@, p.current_cter.0, i)]
}

/// The answer to whether player `user_id` meets condition `skill_judge`
/// of skill `skill_id`: no condition (0) is met; an unknown one or one that
/// names no kind of target fails; one on another kind than the player
/// is met; on the player, the hp bound, the once-a-turn and once-a-round
/// rules and the need of a pair are checked.
pub open spec fn judge_result(bd: BattleData, user_id: u32, skill_judge: u32, skill_id: Option<u32>, temps: Seq<SkillJudgeTemp>) -> Result<(), JudgeError> {
    if skill_judge == 0 {
        Ok(())
    } else {
        match judge_of(temps, skill_judge) {
            None => Err(JudgeError::NoJudgeTemp(skill_judge)),
            Some(t) => {
                if t.target > 27 {
                    Err(JudgeError::BadTargetType(t.target))
                } else if t.target != TargetType::PlayerSelf.code() {
                    Ok(())
                } else {
                    let p = player_of(bd.battle_player@, user_id);
                    let sid = skill_id.unwrap();
                    if t.id == HP_LIMIT_GT && current_cter_of(p).base_attr.hp <= (t.par1 as i16) {
                        Err(JudgeError::HpLimit(t.id))
                    } else if t.id == LIMIT_TURN_TIMES && p.flow_data.turn_limit_skills@.contains(sid) {
                        Err(JudgeError::TurnLimit(t.id))
                    } else if t.id == LIMIT_ROUND_TIMES && p.flow_data.round_limit_skills@.contains(sid) {
                        Err(JudgeError::RoundLimit(t.id))
                    } else if t.id == PAIR_LIMIT && !p.flow_data.pair_usable_skills@.contains(sid) {
                        Err(JudgeError::PairLimit(t.id))
                    } else {
                        Ok(())
                    }
                }
            },
        }
    }
}

/// What `check_skill_judge` needs: where the condition is configured and
/// names a kind of target, the player is in the battle; where it applies
/// to the player, the hp rule needs the character acting now and the other
/// rules need the skill.
pub open spec fn judge_ready(bd: BattleData, user_id: u32, skill_judge: u32, skill_id: Option<u32>, temps: Seq<SkillJudgeTemp>) -> bool {
    skill_judge != 0 ==> match judge_of(temps, skill_judge) {
        None => true,
        Some(t) => t.target <= 27 ==> {
            &&& has_player(bd.battle_player@, user_id)
            &&& player_alive(player_of(bd.battle_player@, user_id))
            &&& (t.target == TargetType::PlayerSelf.code() && t.id == HP_LIMIT_GT) ==> {
                let p = player_of(bd.battle_player@, user_id);
                has_cter(p.cters@, p.current_cter.0)
            }
            &&& (t.target == TargetType::PlayerSelf.code()
                && (t.id == LIMIT_TURN_TIMES || t.id == LIMIT_ROUND_TIMES || t.id == PAIR_LIMIT)) ==> skill_id is Some
        },
    }
}

impl BattleData {
    /// Checks condition `skill_judge` of skill `skill_id` for player
    /// `user_id` (see `judge_result`); the conditions are looked up in `judge_temps`.
    pub fn check_skill_judge(
        &self,
        user_id: u32,
        skill_judge: u32,
        skill_id: Option<u32>,
        judge_temps: &Vec<SkillJudgeTemp>,
    ) -> (r: Result<(), JudgeError>)
        requires
            judge_ready(*self, user_id, skill_judge, skill_id, judge_temps@),
        ensures
            r == judge_result(*self, user_id, skill_judge, skill_id, judge_temps@),
    {
        broadcast use vstd::std_specs::hash::group_hash_axioms;
        if skill_judge == 0 {
            return Ok(());
        }
        let ghost temps = judge_temps@;
        let mut i: usize = 0;
        while i < judge_temps.len()
            invariant
                temps == judge_temps@,
                i <= temps.len(),
                forall|j: int| 0 <= j < i ==> #[trigger] temps[j].id != skill_judge,
            ensures
                i <= temps.len(),
                i < temps.len() ==> temps[i as int].id == skill_judge,
                forall|j: int| 0 <= j < i ==> #[trigger] temps[j].id != skill_judge,
            decreases temps.len() - i,
        {
            if judge_temps[i].id == skill_judge {
                break;
            }
            i = i + 1;
        }
        if i >= judge_temps.len() {
            return Err(JudgeError::NoJudgeTemp(skill_judge));
        }
        let t = judge_temps[i];
        proof {
            assert(first_judge(temps, skill_judge, i as int));
            let k = choose|k: int| #[trigger] first_judge(temps, skill_judge, k);
            if k < i {
                assert(temps[k].id != skill_judge);
            } else if i < k {
                assert(temps[i as int].id != skill_judge);
            }
        }
        let target_type = match TargetType::try_from_u8(t.target) {
            Some(tt) => tt,
            None => return Err(JudgeError::BadTargetType(t.target)),
        };
        let p = match self.get_battle_player(Some(user_id), true) {
            Ok(p) => p,
            Err(_) => {
                assert(false);
                return Ok(());
            },
        };
        match target_type {
            TargetType::PlayerSelf => {
                if t.id == HP_LIMIT_GT {
                    let cter = p.get_current_cter();
                    proof {
                        let a = choose|a: int| first_cter(p.cters@, p.current_cter.0, a) && *cter == #[trigger] p.cters@[a];
                        let b = choose|b: int| first_cter(p.cters@, p.current_cter.0, b);
                        if a < b {
                            assert(p.cters@[a].base_attr.cter_id != p.current_cter.0);
                        } else if b < a {
                            assert(p.cters@[b].base_attr.cter_id != p.current_cter.0);
                        }
                    }
                    if cter.base_attr.hp <= #[verifier::truncate] (t.par1 as i16) {
                        return Err(JudgeError::HpLimit(t.id));
                    }
                }
                if t.id == LIMIT_TURN_TIMES && vec_contains(&p.flow_data.turn_limit_skills, skill_id.unwrap()) {
                    Err(JudgeError::TurnLimit(t.id))
                } else if t.id == LIMIT_ROUND_TIMES && vec_contains(&p.flow_data.round_limit_skills, skill_id.unwrap()) {
                    Err(JudgeError::RoundLimit(t.id))
                } else if t.id == PAIR_LIMIT && !p.flow_data.pair_usable_skills.contains(&skill_id.unwrap()) {
                    Err(JudgeError::PairLimit(t.id))
                } else {
                    Ok(())
                }
            },
            _ => Ok(()),
        }
    }
}

/// An effect shown to the clients: its kind and value.
#[derive(Debug, Clone, Copy, PartialEq, Eq, Structural)]
pub struct EffectPt {
    pub effect_type: u32,
    pub effect_value: u32,
}

/// An effect a buff of the target itself caused.
#[derive(Debug, Clone, Copy, PartialEq, Eq, Structural)]
pub struct TriggerEffectPt {
    pub field_type: u32,
    pub value: u32,
    pub buff_id: u32,
}

/// What happened to one target, as shown to the clients.
pub struct TargetPt {
    /// the cells of the target
    pub target_value: Vec<u32>,
    pub effects: Vec<EffectPt>,
    pub passive_effect: Vec<TriggerEffectPt>,
    /// buffs shown on the target
    pub add_buffs: Vec<u32>,
}

/// One action as shown to the clients: who acted, what kind of action with
/// which values, and what happened to each target.
pub struct ActionUnitPt {
    pub from_user: u32,
    pub action_type: u32,
    pub action_value: Vec<u32>,
    pub targets: Vec<TargetPt>,
}

/// An action of `user_id`, of kind `action_type` with value `action_value`,
/// with no target yet.
pub fn build_action_unit_pt(user_id: u32, action_type: ActionType, action_value: u32) -> (r: ActionUnitPt)
    ensures
        r.from_user == user_id,
        r.action_type == action_type.code(),
        r.action_value@ == seq![action_value],
        r.targets@.len() == 0,
{
    let mut au = ActionUnitPt { from_user: user_id, action_type: action_type.into_u32(), action_value: Vec::new(), targets: Vec::new() };
    au.action_value.push(action_value);
    assert(au.action_value@ =~= seq![action_value]);
    au
}

/// Whether player `user_id` is in the battle, found and alive, with a
/// character acting now.
pub open spec fn acting_player(bd: BattleData, user_id: u32) -> bool {
    &&& has_player(bd.battle_player@, user_id)
    &&& player_alive(player_of(bd.battle_player@, user_id))
    &&& has_cter(player_of(bd.battle_player@, user_id).cters@, player_of(bd.battle_player@, user_id).current_cter.0)
}

/// The cell of the character player `user_id` acts with.
pub open spec fn player_cell(bd: BattleData, user_id: u32) -> usize {
    current_cter_of(player_of(bd.battle_player@, user_id)).get_map_cell_index_spec()
}

impl BattleData {
    /// What an effect of kind `effect_type` and value `effect_value` did to
    /// player `target_user`: on the cell of the character it acts with; an
    /// effect of a buff (`buff_id`) the player cast on itself (`from_user`)
    /// is shown as caused by that buff. Fails where the player is not found
    /// or out of the battle.
    pub fn build_target_pt(
        &self,
        from_user: Option<u32>,
        target_user: u32,
        effect_type: EffectType,
        effect_value: u32,
        buff_id: Option<u32>,
    ) -> (r: Result<TargetPt, BattleError>)
        requires
            has_player(self.battle_player@, target_user) && player_alive(player_of(self.battle_player@, target_user))
                ==> has_cter(player_of(self.battle_player@, target_user).cters@, player_of(self.battle_player@, target_user).current_cter.0),
        ensures
            !has_player(self.battle_player@, target_user) ==> r == Err::<TargetPt, BattleError>(BattleError::NoPlayer(target_user)),
            has_player(self.battle_player@, target_user) && !player_alive(player_of(self.battle_player@, target_user))
                ==> r == Err::<TargetPt, BattleError>(BattleError::PlayerDied(target_user)),
            has_player(self.battle_player@, target_user) && player_alive(player_of(self.battle_player@, target_user)) ==> (r matches Ok(t) && {
                &&& t.target_value@ == seq![player_cell(*self, target_user) as u32]
                &&& t.add_buffs@.len() == 0
                &&& if from_user == Some(target_user) && buff_id is Some {
                    &&& t.effects@.len() == 0
                    &&& t.passive_effect@ == seq![TriggerEffectPt { field_type: effect_type.code() as u32, value: effect_value, buff_id: buff_id.unwrap() }]
                } else {
                    &&& t.effects@ == seq![EffectPt { effect_type: effect_type.code() as u32, effect_value }]
                    &&& t.passive_effect@.len() == 0
                }
            }),
    {
        let p = match self.get_battle_player(Some(target_user), true) {
            Ok(p) => p,
            Err(e) => return Err(e),
        };
        let index = p.get_current_cter_index();
        proof {
            let a = choose|a: int| first_cter(p.cters@, p.current_cter.0, a) && index == (#[trigger] p.cters@[a]).get_map_cell_index_spec();
            let b = choose|b: int| first_cter(p.cters@, p.current_cter.0, b);
            if a < b {
                assert(p.cters@[a].base_attr.cter_id != p.current_cter.0);
            } else if b < a {
                assert(p.cters@[b].base_attr.cter_id != p.current_cter.0);
            }
        }
        let mut t = TargetPt { target_value: Vec::new(), effects: Vec::new(), passive_effect: Vec::new(), add_buffs: Vec::new() };
        t.target_value.push(index as u32);
        let is_self_buff = match (from_user, buff_id) {
            (Some(f), Some(_)) => f == target_user,
            _ => false,
        };
        if is_self_buff {
            t.passive_effect.push(TriggerEffectPt { field_type: effect_type.into_u32(), value: effect_value, buff_id: buff_id.unwrap() });
        } else {
            t.effects.push(EffectPt { effect_type: effect_type.into_u32(), effect_value });
        }
        assert(t.target_value@ =~= seq![index as u32]);
        Ok(t)
    }

    /// Heals player `target_user` by `hp` (which may be negative): the
    /// character it acts with gains `hp`; returns what the clients see (see
    /// `build_target_pt`, effect `Cure` with value `hp as u32`). Fails
    /// where the player is not found or out of the battle.
    pub fn add_hp(&mut self, from_user: Option<u32>, target_user: u32, hp: i16, buff_id: Option<u32>) -> (r: Result<TargetPt, BattleError>)
        requires
            acting_player(*old(self), target_user) ==>
                i16::MIN <= current_cter_of(player_of(old(self).battle_player@, target_user)).base_attr.hp + hp <= i16::MAX,
            has_player(old(self).battle_player@, target_user) && player_alive(player_of(old(self).battle_player@, target_user))
                ==> has_cter(player_of(old(self).battle_player@, target_user).cters@, player_of(old(self).battle_player@, target_user).current_cter.0),
        ensures
            !has_player(old(self).battle_player@, target_user) ==> r == Err::<TargetPt, BattleError>(BattleError::NoPlayer(target_user))
                && final(self).battle_player@ == old(self).battle_player@,
            has_player(old(self).battle_player@, target_user) && !player_alive(player_of(old(self).battle_player@, target_user))
                ==> r == Err::<TargetPt, BattleError>(BattleError::PlayerDied(target_user))
                    && final(self).battle_player@ == old(self).battle_player@,
            acting_player(*old(self), target_user) ==> r is Ok && ({
                let old_p = player_of(old(self).battle_player@, target_user);
                exists|i: int, k: int| #[trigger] crate::battle::first_player(old(self).battle_player@, target_user, i)
                    && #[trigger] first_cter(old_p.cters@, old_p.current_cter.0, k)
                    && final(self).battle_player@ == old(self).battle_player@.update(i,
                        BattlePlayer { cters: final(self).battle_player@[i].cters, ..old_p })
                    && final(self).battle_player@[i].cters@ == old_p.cters@.update(k, healed_cter(old_p.cters@[k], hp))
            }),
            final(self).tile_map == old(self).tile_map,
            final(self).turn_orders == old(self).turn_orders,
            final(self).next_turn_index == old(self).next_turn_index,
    {
        let pos = match self.get_battle_player_pos(target_user, true) {
            Ok(i) => i,
            Err(e) => return Err(e),
        };
        let ghost old_ps = self.battle_player@;
        let ghost old_p = self.battle_player@[pos as int];
        let ci = match crate::battle_player::cter_position(&self.battle_player[pos].cters, self.battle_player[pos].current_cter.0) {
            Some(ci) => ci,
            None => {
                assert(false);
                return Err(BattleError::NoPlayer(target_user));
            },
        };
        proof {
            let b = choose|b: int| first_cter(old_p.cters@, old_p.current_cter.0, b);
            if (ci as int) < b {
                assert(old_p.cters@[ci as int].base_attr.cter_id != old_p.current_cter.0);
            } else if b < ci {
                assert(old_p.cters@[b].base_attr.cter_id != old_p.current_cter.0);
            }
        }
        let mut p = self.battle_player.remove(pos);
        let mut c = p.cters.remove(ci);
        c.add_hp(hp);
        p.cters.insert(ci, c);
        self.battle_player.insert(pos, p);
        proof {
            let new_ps = self.battle_player@;
            let new_p = new_ps[pos as int];
            assert(new_ps =~= old_ps.update(pos as int, new_p));
            assert(new_p.cters@ =~= old_p.cters@.update(ci as int, new_p.cters@[ci as int]));
            assert(new_ps =~= old_ps.update(pos as int, BattlePlayer { cters: new_p.cters, ..old_p }));
            assert forall|j: int| 0 <= j < new_ps.len() implies #[trigger] new_ps[j].user_id == old_ps[j].user_id by {}
            assert(crate::battle::first_player(new_ps, target_user, pos as int));
            assert(has_player(new_ps, target_user));
            let q = choose|q: int| crate::battle::first_player(new_ps, target_user, q);
            crate::battle::lemma_first_player_unique(new_ps, target_user, pos as int, q);
            assert(player_of(new_ps, target_user) == new_p);
            assert forall|j: int| 0 <= j < new_p.cters@.len() implies #[trigger] new_p.cters@[j].base_attr.cter_id == old_p.cters@[j].base_attr.cter_id by {}
            assert(first_cter(new_p.cters@, new_p.current_cter.0, ci as int));
            assert(has_cter(new_p.cters@, new_p.current_cter.0));
            assert(crate::battle::first_player(old_ps, target_user, pos as int));
            assert(first_cter(old_p.cters@, old_p.current_cter.0, ci as int));
            let q0 = choose|q0: int| crate::battle::first_player(old_ps, target_user, q0);
            crate::battle::lemma_first_player_unique(old_ps, target_user, pos as int, q0);
        }
        self.build_target_pt(from_user, target_user, EffectType::Cure, hp as u32, buff_id)
    }
}

/// The gold for opening a cell: the configured value, 1 where none is.
pub open spec fn open_cell_reward(cfg: Option<u32>) -> u32 {
    match cfg {
        Some(v) => v,
        None => 1,
    }
}

/// The events that opening a cell may count for a mission: one cell
/// opened, and the gold gained.
pub open spec fn open_cell_events(reward: u32) -> Seq<(MissionTriggerType, u16)> {
    seq![(MissionTriggerType::OpenCell, 1u16), (MissionTriggerType::GetGold, reward as u16)]
}

/// `bd1` is `bd0` after player `user_id` opened cell `index` for `reward`
/// gold: the cell joins the player's cells opened this turn, the cell
/// records its opener, and the gold is paid.
pub open spec fn cell_opened(bd0: BattleData, bd1: BattleData, user_id: u32, index: usize, reward: u32) -> bool {
    exists|i: int| #[trigger] first_player(bd0.battle_player@, user_id, i) && {
        let p = bd0.battle_player@[i];
        let p1 = bd1.battle_player@[i];
        &&& bd1 == (BattleData { battle_player: bd1.battle_player, tile_map: bd1.tile_map, ..bd0 })
        &&& bd1.battle_player@ == bd0.battle_player@.update(i, p1)
        &&& p1 == (BattlePlayer { gold: gold_after(p.gold, reward as i32) as i32, flow_data: p1.flow_data, ..p })
        &&& p1.flow_data == (TurnFlowData { open_map_cell_vec_history: p1.flow_data.open_map_cell_vec_history, ..p.flow_data })
        &&& p1.flow_data.open_map_cell_vec_history@ == p.flow_data.open_map_cell_vec_history@.push(index)
        &&& bd1.tile_map == (TileMap { map_cells: bd1.tile_map.map_cells, ..bd0.tile_map })
        &&& bd1.tile_map.map_cells@ == bd0.tile_map.map_cells@.update(index as int,
            MapCell { open_user: user_id, ..bd0.tile_map.map_cells@[index as int] })
    }
}

impl BattleData {
    /// Player `user_id` opens cell `index`: the cell is recorded as opened
    /// by the player, who gains the configured gold (`reward_cfg`, 1 where
    /// none is configured); the opening and the gold may count for the
    /// player's mission (see `trigger_mission`, with the cell's element).
    /// Returns the id of the mission completed, if one was.
    pub fn exec_open_map_cell(&mut self, user_id: u32, index: usize, reward_cfg: Option<u32>) -> (r: Option<u32>)
        requires
            has_player(old(self).battle_player@, user_id),
            index < old(self).tile_map.map_cells@.len(),
            ({
                let p = player_of(old(self).battle_player@, user_id);
                let reward = open_cell_reward(reward_cfg);
                &&& i32::MIN <= p.gold + (reward as i32) <= i32::MAX
                &&& player_triggers_ready(BattlePlayer { gold: gold_after(p.gold, reward as i32) as i32, ..p },
                    open_cell_events(reward))
            }),
        ensures
            exists|mid: BattleData| #[trigger] cell_opened(*old(self), mid, user_id, index, open_cell_reward(reward_cfg))
                && mission_triggered(mid, *final(self), user_id, open_cell_events(open_cell_reward(reward_cfg)),
                    (old(self).tile_map.map_cells@[index as int].element as u32, 0), r),
    {
        let ghost bd0 = *self;
        let pos = match crate::battle::player_position(&self.battle_player, user_id) {
            Some(i) => i,
            None => {
                assert(false);
                return None;
            },
        };
        proof {
            crate::battle::lemma_first_player_unique(bd0.battle_player@, user_id, pos as int,
                choose|q: int| first_player(bd0.battle_player@, user_id, q));
        }
        let res: u32 = match reward_cfg {
            Some(v) => v,
            None => 1,
        };
        let mut p = self.battle_player.remove(pos);
        p.add_open_map_cell(index);
        p.add_gold(res as i32);
        self.battle_player.insert(pos, p);
        self.tile_map.map_cells[index].open_user = user_id;
        let element = self.tile_map.map_cells[index].element as u32;
        let ghost mid = *self;
        proof {
            assert(mid.battle_player@ =~= bd0.battle_player@.update(pos as int, mid.battle_player@[pos as int]));
            assert(mid.tile_map.map_cells@ =~= bd0.tile_map.map_cells@.update(index as int,
                MapCell { open_user: user_id, ..bd0.tile_map.map_cells@[index as int] }));
            assert(cell_opened(bd0, mid, user_id, index, res));
            assert forall|j: int| 0 <= j < mid.battle_player@.len() implies #[trigger] mid.battle_player@[j].user_id == bd0.battle_player@[j].user_id by {}
            assert(first_player(mid.battle_player@, user_id, pos as int));
            crate::battle::lemma_first_player_unique(mid.battle_player@, user_id, pos as int,
                choose|q: int| first_player(mid.battle_player@, user_id, q));
        }
        let events: Vec<(MissionTriggerType, u16)> = vec![(MissionTriggerType::OpenCell, 1u16), (MissionTriggerType::GetGold, res as u16)];
        assert(events@ =~= open_cell_events(res));
        trigger_mission(self, user_id, &events, (element, 0))
    }
}

/// Holds of the entries whose key is not `key`.
pub open spec fn key_other_than(key: usize) -> spec_fn((usize, u32)) -> bool {
    |e: (usize, u32)| e.0 != key
}

/// Takes the entries with key `key` out of a list of (key, value) entries.
fn remove_key(v: &mut Vec<(usize, u32)>, key: usize)
    ensures
        final(v)@ == old(v)@.filter(key_other_than(key)),
{
    let ghost v0 = v@;
    let mut out: Vec<(usize, u32)> = Vec::new();
    let mut i: usize = 0;
    while i < v.len()
        invariant
            v@ == v0,
            i <= v0.len(),
            out@ == v0.take(i as int).filter(key_other_than(key)),
        decreases v0.len() - i,
    {
        let e = v[i];
        proof {
            assert(v0.take(i + 1) == v0.take(i as int).push(e));
            v0.take(i as int).lemma_filter_push(e, key_other_than(key));
        }
        if e.0 != key {
            out.push(e);
        }
        i = i + 1;
    }
    proof {
        assert(v0.take(v0.len() as int) == v0);
    }
    *v = out;
}

/// `k` is the first of the cells the player opened by the last move that
/// holds what cell `index` holds.
pub open spec fn pair_at(cells: Seq<MapCell>, opened: Seq<usize>, index: usize, k: int) -> bool {
    &&& 0 <= k < opened.len()
    &&& opened[k] < cells.len()
    &&& cells[opened[k] as int].id == cells[index as int].id
    &&& forall|j: int| 0 <= j < k ==> !(#[trigger] opened[j] < cells.len() && cells[opened[j] as int].id == cells[index as int].id)
}

/// `bd1` and `r` are what player `user_id` opening cell `index` of `bd0`
/// does to the pairs (see `BattleData::handler_map_cell_pair`).
pub open spec fn pair_handled(bd0: BattleData, bd1: BattleData, user_id: u32, index: usize, r: bool) -> bool {
    let cells = bd0.tile_map.map_cells@;
    if !has_player(bd0.battle_player@, user_id) || index >= cells.len() {
        !r && bd1 == bd0
    } else {
        exists|i: int| #[trigger] first_player(bd0.battle_player@, user_id, i) && {
            let p = bd0.battle_player@[i];
            let p1 = bd1.battle_player@[i];
            let opened = p.flow_data.open_map_cell_vec@;
            &&& bd1 == (BattleData { battle_player: bd1.battle_player, tile_map: bd1.tile_map, ..bd0 })
            &&& bd1.battle_player@ == bd0.battle_player@.update(i, p1)
            &&& p1 == (BattlePlayer { flow_data: p1.flow_data, status: p1.status, ..p })
            &&& p1.flow_data == (TurnFlowData { open_map_cell_vec: p1.flow_data.open_map_cell_vec, ..p.flow_data })
            &&& if !(exists|k: int| #[trigger] pair_at(cells, opened, index, k)) {
                &&& !r
                &&& bd1.tile_map == bd0.tile_map
                &&& p1.status == p.status
                &&& p1.flow_data.open_map_cell_vec@ == opened.push(index)
            } else {
                let k = choose|k: int| #[trigger] pair_at(cells, opened, index, k);
                let oi = opened[k];
                let c1 = cells.update(index as int, MapCell { pair_index: Some(cells[oi as int].index), ..cells[index as int] });
                let c2 = c1.update(oi as int, MapCell { pair_index: Some(index), ..c1[oi as int] });
                &&& r
                &&& p1.status == (BattleStatus {
                    is_pair: true,
                    attack_state: if p.status.attack_state != AttackState::Locked { AttackState::Able } else { p.status.attack_state },
                    ..p.status
                })
                &&& p1.flow_data.open_map_cell_vec@ == opened.remove(k)
                &&& bd1.tile_map == (TileMap { map_cells: bd1.tile_map.map_cells, un_pair_map: bd1.tile_map.un_pair_map, ..bd0.tile_map })
                &&& bd1.tile_map.map_cells@ == c2
                &&& bd1.tile_map.un_pair_map@ == bd0.tile_map.un_pair_map@.filter(key_other_than(c2[oi as int].index))
                    .filter(key_other_than(c2[index as int].index))
            }
        }
    }
}

impl BattleData {
    /// Player `user_id` opened cell `index`: where a cell it opened by its
    /// last move holds the same, the two are paired (each records the
    /// other, and both leave the unpaired list), the player has paired and
    /// may attack (unless attacking is locked), and the other cell leaves
    /// the opened list; otherwise cell `index` joins that list. Returns
    /// whether a pair was made. See `pair_handled`.
    pub fn handler_map_cell_pair(&mut self, user_id: u32, index: usize) -> (r: bool)
        ensures
            pair_handled(*old(self), *final(self), user_id, index, r),
    {
        let ghost bd0 = *self;
        let ghost cells = self.tile_map.map_cells@;
        let pos = match crate::battle::player_position(&self.battle_player, user_id) {
            Some(i) => i,
            None => return false,
        };
        if index >= self.tile_map.map_cells.len() {
            return false;
        }
        proof {
            crate::battle::lemma_first_player_unique(bd0.battle_player@, user_id, pos as int,
                choose|q: int| first_player(bd0.battle_player@, user_id, q));
        }
        let ghost opened = self.battle_player@[pos as int].flow_data.open_map_cell_vec@;
        let map_cell_id = self.tile_map.map_cells[index].id;
        let mut found: Option<usize> = None;
        let mut k: usize = 0;
        while k < self.battle_player[pos].flow_data.open_map_cell_vec.len()
            invariant_except_break
                found is None,
            invariant
                pos < self.battle_player@.len(),
                opened == self.battle_player@[pos as int].flow_data.open_map_cell_vec@,
                cells == self.tile_map.map_cells@,
                index < cells.len(),
                map_cell_id == cells[index as int].id,
                k <= opened.len(),
                forall|j: int| 0 <= j < k ==> !(#[trigger] opened[j] < cells.len() && cells[opened[j] as int].id == cells[index as int].id),
            ensures
                match found {
                    Some(f) => f == k && pair_at(cells, opened, index, k as int),
                    None => forall|j: int| 0 <= j < opened.len() ==> !(#[trigger] opened[j] < cells.len() && cells[opened[j] as int].id == cells[index as int].id),
                },
            decreases opened.len() - k,
        {
            let oi = self.battle_player[pos].flow_data.open_map_cell_vec[k];
            if oi < self.tile_map.map_cells.len() && self.tile_map.map_cells[oi].id == map_cell_id {
                found = Some(k);
                break;
            }
            k = k + 1;
        }
        match found {
            None => {
                let mut p = self.battle_player.remove(pos);
                p.flow_data.open_map_cell_vec.push(index);
                self.battle_player.insert(pos, p);
                proof {
                    assert(!(exists|k: int| #[trigger] pair_at(cells, opened, index, k)));
                    assert(self.battle_player@ =~= bd0.battle_player@.update(pos as int, self.battle_player@[pos as int]));
                }
                false
            },
            Some(k) => {
                proof {
                    let k2 = choose|k2: int| #[trigger] pair_at(cells, opened, index, k2);
                    if k2 < k {
                        assert(!(opened[k2] < cells.len() && cells[opened[k2] as int].id == cells[index as int].id));
                    } else if (k as int) < k2 {
                        assert(!(opened[k as int] < cells.len() && cells[opened[k as int] as int].id == cells[index as int].id));
                    }
                }
                let oi = self.battle_player[pos].flow_data.open_map_cell_vec[k];
                let other_index = self.tile_map.map_cells[oi].index;
                self.tile_map.map_cells[index].pair_index = Some(other_index);
                self.tile_map.map_cells[oi].pair_index = Some(index);
                let ghost c2 = self.tile_map.map_cells@;
                let mut p = self.battle_player.remove(pos);
                p.status.is_pair = true;
                if p.get_attack_state() != AttackState::Locked {
                    p.change_attack_able();
                }
                let k1 = self.tile_map.map_cells[oi].index;
                let k2 = self.tile_map.map_cells[index].index;
                remove_key(&mut self.tile_map.un_pair_map, k1);
                remove_key(&mut self.tile_map.un_pair_map, k2);
                p.flow_data.open_map_cell_vec.remove(k);
                self.battle_player.insert(pos, p);
                proof {
                    let c1 = cells.update(index as int, MapCell { pair_index: Some(cells[oi as int].index), ..cells[index as int] });
                    assert(c2 =~= c1.update(oi as int, MapCell { pair_index: Some(index), ..c1[oi as int] }));
                    assert(self.battle_player@ =~= bd0.battle_player@.update(pos as int, self.battle_player@[pos as int]));
                }
                true
            },
        }
    }
}

proof fn lemma_cells_error_stays(cells: Seq<MapCell>, ts: Seq<u32>, f: ChoiceFlags, i: nat, n: nat)
    requires
        i <= n,
        cells_error(cells, ts, f, i) is Some,
    ensures
        cells_error(cells, ts, f, n) == cells_error(cells, ts, f, i),
    decreases n - i,
{
    if i < n {
        lemma_cells_error_stays(cells, ts, f, i, (n - 1) as nat);
    }
}

proof fn lemma_cell_players_stays(bd: BattleData, ts: Seq<u32>, i: nat, n: nat)
    requires
        i <= n,
        cell_players(bd, ts, i) is Err,
    ensures
        cell_players(bd, ts, n) == cell_players(bd, ts, i),
    decreases n - i,
{
    if i < n {
        lemma_cell_players_stays(bd, ts, i, (n - 1) as nat);
    }
}

proof fn lemma_user_check_stays(bd: BattleData, v: Seq<u32>, self_id: Option<u32>, i: int)
    requires
        0 <= i <= v.len(),
        user_check(bd, v.take(i), self_id) is Err,
    ensures
        user_check(bd, v, self_id) == user_check(bd, v.take(i), self_id),
    decreases v.len() - i,
{
    if i < v.len() {
        assert(v.drop_last().take(i) =~= v.take(i));
        lemma_user_check_stays(bd, v.drop_last(), self_id, i);
    } else {
        assert(v.take(i) =~= v);
    }
}


impl BattleData {
    /// What is shown of player `user_id` (even one out of the battle): the
    /// cell of the character it acts with, and nothing more yet. Fails where
    /// the player is not found.
    pub fn new_target_pt(&self, user_id: u32) -> (r: Result<TargetPt, BattleError>)
        requires
            has_player(self.battle_player@, user_id)
                ==> has_cter(player_of(self.battle_player@, user_id).cters@, player_of(self.battle_player@, user_id).current_cter.0),
        ensures
            !has_player(self.battle_player@, user_id) ==> r == Err::<TargetPt, BattleError>(BattleError::NoPlayer(user_id)),
            has_player(self.battle_player@, user_id) ==> (r matches Ok(t)
                && t.target_value@ == seq![player_cell(*self, user_id) as u32]
                && t.effects@.len() == 0 && t.passive_effect@.len() == 0 && t.add_buffs@.len() == 0),
    {
        let p = match self.get_battle_player(Some(user_id), false) {
            Ok(p) => p,
            Err(e) => return Err(e),
        };
        let c = p.get_current_cter();
        proof {
            let a = choose|a: int| first_cter(p.cters@, p.current_cter.0, a) && *c == #[trigger] p.cters@[a];
            let b = choose|b: int| first_cter(p.cters@, p.current_cter.0, b);
            if a < b {
                assert(p.cters@[a].base_attr.cter_id != p.current_cter.0);
            } else if b < a {
                assert(p.cters@[b].base_attr.cter_id != p.current_cter.0);
            }
        }
        let mut t = TargetPt { target_value: Vec::new(), effects: Vec::new(), passive_effect: Vec::new(), add_buffs: Vec::new() };
        t.target_value.push(c.get_map_cell_index() as u32);
        Ok(t)
    }
}

} // verus!
