//! Function ids of skills, grouped by the rule they run.

use vstd::prelude::*;

verus! {


/// opens cells
pub const SKILL_OPEN_MAP_CELL: [u32; 1] = [223];
/// hurts the caster and adds a buff
pub const HURT_SELF_ADD_BUFF: [u32; 1] = [311];
/// pairs cells automatically
pub const AUTO_PAIR_MAP_CELL: [u32; 1] = [212];
/// adds a buff
pub const ADD_BUFF: [u32; 9] = [122, 211, 221, 311, 312, 322, 324, 11004, 20002];
/// swaps the positions of cells
pub const CHANGE_MAP_CELL_INDEX: [u32; 1] = [111];
/// shows cells
pub const SHOW_MAP_CELL: [u32; 5] = [112, 113, 421, 423, 20001];
/// moves a player
pub const MOVE_USER: [u32; 1] = [222];
/// skill damage to adjacent players, healing the caster
pub const NEAR_SKILL_DAMAGE_AND_CURE: [u32; 1] = [321];
/// skill damage
pub const SKILL_DAMAGE: [u32; 8] = [999, 123, 20004, 20005, 323, 433, 331, 11001];
/// area skill damage
pub const SKILL_AOE: [u32; 5] = [121, 411, 412, 432, 11005];
/// lowers skill cooldowns
pub const RED_SKILL_CD: [u32; 1] = [20003];
/// skill damage to players standing on opened cells of an element
pub const SKILL_DAMAGE_OPENED_ELEMENT: [u32; 1] = [213];
/// heals in a scope
pub const SCOPE_CURE: [u32; 1] = [313];
/// transformation
pub const TRANSFORM: [u32; 1] = [431];
/// shows cells
pub const SHOW_INDEX: [u32; 1] = [422];

/// single ids, named for convenience
/// water turret
pub const WATER_TURRET: u32 = 323;
/// opens an adjacent cell
pub const SKILL_OPEN_NEAR_CELL: u32 = 223;
/// shows a random cell to all players, nature cells first
pub const SHOW_ALL_USERS_CELL: u32 = 113;
/// skill damage, deeper when the target is adjacent
pub const SKILL_DAMAGE_NEAR_DEEP: u32 = 999;
/// shows all cells of the same element to all players and heals
pub const SHOW_SAME_ELMENT_CELL_ALL_AND_CURE: u32 = 423;
/// area skill damage, deeper at the centre
pub const SKILL_AOE_CENTER_DAMAGE_DEEP: u32 = 432;
/// area damage that also lowers skill cooldowns
pub const SKILL_AOE_RED_SKILL_CD: u32 = 121;
/// shows the cells of the same element as a chosen cell
pub const SHOW_INDEX_SAME_ELEMENT: u32 = 422;
/// usable after a pair, deals damage
pub const SKILL_PAIR_LIMIT_DAMAGE: [u32; 1] = [331];
/// summons a minion
pub const SUMMON_MINON: [u32; 1] = [11002];

/// lowers the maximum movement points
pub const SUB_MAX_MOVE_POINT: u32 = 11004;

/// area skill whose scope changes
pub const SCOPE_CHANGE_SKILL_AOE: u32 = 11005;

} // verus!
