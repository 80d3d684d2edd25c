//! Function ids of buffs, grouped by the rule they run.

use vstd::prelude::*;

verus! {

/// blocks attack damage
pub const GD_ATTACK_DAMAGE: [u32; 1] = [2];
/// turns into a skill
pub const CHANGE_SKILL: [u32; 1] = [3];
/// raises attack and makes it an area attack
pub const ADD_ATTACK_AND_AOE: [u32; 1] = [4];
/// raises attack
pub const ADD_ATTACK: [u32; 5] = [4, 7, 16, 1001, 1002];
/// damage reduction
pub const SUB_ATTACK_DAMAGE: [u32; 2] = [8, 10001];
/// grants an item
pub const AWARD_ITEM: [u32; 5] = [10003, 30011, 30021, 30031, 30041];
/// heals on a pair
pub const PAIR_CURE: u32 = 30012;
/// grants a buff
pub const AWARD_BUFF: u32 = 30022;
/// raises the skill cooldowns of adjacent players
pub const NEAR_ADD_CD: u32 = 30032;
/// skill damage to adjacent players on a pair
pub const NEAR_SKILL_DAMAGE_PAIR: u32 = 30042;
/// skill damage to players who move next to the carrier
pub const DEFENSE_NEAR_MOVE_SKILL_DAMAGE: [u32; 1] = [1];
/// gains energy when attacked
pub const ATTACKED_ADD_ENERGY: [u32; 1] = [10004];
/// pairing cells of the same element raises attack
pub const PAIR_SAME_ELEMENT_ADD_ATTACK: u32 = 1001;
/// raises attack when the map is reset
pub const RESET_MAP_ADD_ATTACK: [u32; 1] = [1002];
/// acts on manual moves and on pairs
pub const MANUAL_MOVE_AND_PAIR_ADD_ENERGY: [u32; 1] = [1004];
/// cannot be moved
pub const CAN_NOT_MOVED: u32 = 10002;
/// locks a cell
pub const LOCKED: u32 = 6;
/// heals when pairing cells of the carrier's element
pub const PAIR_SAME_ELEMENT_CURE: u32 = 9;
/// traps
pub const TRAPS: [u32; 2] = [10, 12];
/// clears skill cooldowns on a pair
pub const PAIR_CLEAN_SKILL_CD: u32 = 13;
/// clears or lowers skill cooldowns on a pair
pub const PAIR_SAME_ELEMENT_CLEAN_OR_SUB_SKILL_CD: u32 = 1003;
/// transformation buff
pub const TRANSFORM_BUFF: [u32; 1] = [14];

/// single ids, named for convenience
/// less damage from adjacent attackers
pub const NEAR_SUB_ATTACK_DAMAGE: u32 = 10001;

/// adds a buff to players who move onto the cell
pub const TRAP_ADD_BUFF: [u32; 1] = [10];

/// trap dealing skill damage
pub const TRAP_SKILL_DAMAGE: [u32; 1] = [12];

/// locks skills
pub const LOCK_SKILLS: [u32; 1] = [11];

/// lowers cooldowns when attacked
pub const ATTACKED_SUB_CD: u32 = 15;

/// less damage when attacked
pub const ATTACKED_SUB_DAMAGE: u32 = 17;

/// lowers the cap on movement points
pub const SUB_MOVE_POINT: u32 = 20;

/// attack damage taken becomes 0
pub const NEAR_ATTACKED_DAMAGE_ZERO: u32 = 20001;

/// clears skill cooldowns whenever a cell of a given element is opened
pub const OPEN_ELEMENT_CELL_CLEAR_CD: u32 = 20002;

/// ends the turn on death
pub const DIE_END_TURN: u32 = 20004;

/// returns attack damage taken as area skill damage
pub const RETURN_ATTACKED_DAMAGE_TO_SKILL_AOE: u32 = 20005;

/// skill damage on suicide
pub const SUICIDE_SKILL_DAMAGE: u32 = 20006;

/// world tree buffs, loaded when the battle starts
pub const WORLD_CELL_BUFFS: u32 = 30051;

} // verus!
