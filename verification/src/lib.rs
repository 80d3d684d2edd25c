//! Rules of a turn-based board battle: characters, buffs, skills, the tile
//! map, missions, the shop, leagues and the turn order of a room.

pub mod battle_enum;
pub mod battle_buff;
pub mod battle_skill;
pub mod battle_handler;
pub mod buff_type;
pub mod skill_judge_type;
pub mod skill_type;
pub mod battle_cter;
pub mod battle_player;
pub mod mission;
pub mod mgr;
pub mod outside;
pub mod robot;
pub mod map_data;
pub mod battle;
pub mod room;
pub mod market;
pub mod task_timer;
pub mod robot_skill;
pub mod battle_helper;
pub mod battle_trigger;
pub mod robot_open_cell;
pub mod robot_goal;
pub mod center;
pub mod room_flow;
pub mod season;
pub mod buff_trigger;
pub mod request;
pub mod skill_action;
