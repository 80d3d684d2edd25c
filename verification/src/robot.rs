//! The memory and the action kinds of robot players.

use vstd::prelude::*;

verus! {

/// A cell a robot remembers.
#[derive(Debug, Clone, Copy, PartialEq, Eq, Structural)]
pub struct RememberCell {
    /// position of the cell
    pub cell_index: usize,
    /// configuration id of the cell
    pub cell_id: u32,
}

impl RememberCell {
    pub fn new(cell_index: usize, cell_id: u32) -> (r: RememberCell)
        ensures
            r == (RememberCell { cell_index, cell_id }),
    {
        RememberCell { cell_index, cell_id }
    }
}

/// Kind of action a robot takes.
#[derive(Debug, Clone, Copy, PartialEq, Eq, Structural)]
pub enum RobotActionType {
    /// no action
    Invalid,
    /// choose a cell
    ChoiceIndex,
    /// normal attack
    Attack,
    /// use an item
    UseItem,
    /// skip the turn
    Skip,
    /// open a cell
    Open,
    /// use a skill
    Skill,
    /// trigger a buff
    Buff,
    /// end of showing cells
    EndShowMapCell,
    /// buy in the shop
    Buy,
}

impl RobotActionType {
    /// The number that stands for this variant on the wire and in configuration.
    pub open spec fn code(self) -> u8 {
        match self {
            RobotActionType::Invalid => 0u8,
            RobotActionType::ChoiceIndex => 1u8,
            RobotActionType::Attack => 2u8,
            RobotActionType::UseItem => 3u8,
            RobotActionType::Skip => 4u8,
            RobotActionType::Open => 5u8,
            RobotActionType::Skill => 6u8,
            RobotActionType::Buff => 7u8,
            RobotActionType::EndShowMapCell => 8u8,
            RobotActionType::Buy => 9u8,
        }
    }

    pub fn into_u8(self) -> (r: u8)
        ensures
            r == self.code(),
    {
        match self {
            RobotActionType::Invalid => 0,
            RobotActionType::ChoiceIndex => 1,
            RobotActionType::Attack => 2,
            RobotActionType::UseItem => 3,
            RobotActionType::Skip => 4,
            RobotActionType::Open => 5,
            RobotActionType::Skill => 6,
            RobotActionType::Buff => 7,
            RobotActionType::EndShowMapCell => 8,
            RobotActionType::Buy => 9,
        }
    }

    /// The variant whose code is `v`, if there is one.
    pub fn try_from_u8(v: u8) -> (r: Option<RobotActionType>)
        ensures
            r matches Some(e) ==> e.code() == v,
            r is None <==> !(v == 0 || v == 1 || v == 2 || v == 3 || v == 4 || v == 5 || v == 6 || v == 7 || v == 8 || v == 9),
    {
        if v == 0 {
            Some(RobotActionType::Invalid)
        } else if v == 1 {
            Some(RobotActionType::ChoiceIndex)
        } else if v == 2 {
            Some(RobotActionType::Attack)
        } else if v == 3 {
            Some(RobotActionType::UseItem)
        } else if v == 4 {
            Some(RobotActionType::Skip)
        } else if v == 5 {
            Some(RobotActionType::Open)
        } else if v == 6 {
            Some(RobotActionType::Skill)
        } else if v == 7 {
            Some(RobotActionType::Buff)
        } else if v == 8 {
            Some(RobotActionType::EndShowMapCell)
        } else if v == 9 {
            Some(RobotActionType::Buy)
        } else {
            None
        }
    }
}

impl Default for RobotActionType {
    fn default() -> (r: RobotActionType)
        ensures
            r == RobotActionType::Invalid,
    {
        RobotActionType::Invalid
    }
}

/// State of a robot's action machine.
#[derive(Debug, Clone, Copy, PartialEq, Eq, Structural)]
pub enum RobotStatus {
    /// no status
    Idle,
}

impl RobotStatus {
    /// The number that stands for this variant on the wire and in configuration.
    pub open spec fn code(self) -> u8 {
        match self {
            RobotStatus::Idle => 0u8,
        }
    }

    pub fn into_u8(self) -> (r: u8)
        ensures
            r == self.code(),
    {
        match self {
            RobotStatus::Idle => 0,
        }
    }

    /// The variant whose code is `v`, if there is one.
    pub fn try_from_u8(v: u8) -> (r: Option<RobotStatus>)
        ensures
            r matches Some(e) ==> e.code() == v,
            r is None <==> !(v == 0),
    {
        if v == 0 {
            Some(RobotStatus::Idle)
        } else {
            None
        }
    }
}

impl Default for RobotStatus {
    fn default() -> (r: RobotStatus)
        ensures
            r == RobotStatus::Idle,
    {
        RobotStatus::Idle
    }
}

/// Distinct variants of `RobotActionType` have distinct numbers, so the variant read
/// back from a variant's number is that variant.
pub proof fn law_robot_action_type_codes_distinct(a: RobotActionType, b: RobotActionType)
    ensures
        a.code() == b.code() ==> a == b,
{
}

/// Distinct variants of `RobotStatus` have distinct numbers, so the variant read
/// back from a variant's number is that variant.
pub proof fn law_robot_status_codes_distinct(a: RobotStatus, b: RobotStatus)
    ensures
        a.code() == b.code() ==> a == b,
{
}

} // verus!
