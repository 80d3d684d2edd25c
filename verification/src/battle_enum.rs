//! Enumerations and constants of the battle rules.

use vstd::prelude::*;

verus! {

/// Default number of movement points a player gets at the start of a turn.
pub const TURN_DEFAULT_MOVEMENT_POINTS: u8 = 2;

/// Upper limit of the number of turns one battle may last.
pub const LIMIT_TOTAL_TURN_TIMES: u16 = 999;

/// Index offsets of the ring around a cell, the centre excluded.
pub const TRIGGER_SCOPE_NEAR: [isize; 6] = [-6, -5, -1, 1, 5, 6];

/// Scope configuration id of the ring around a cell, the centre excluded.
pub const TRIGGER_SCOPE_NEAR_TEMP_ID: u32 = 2;

/// Scope configuration id of the ring around a cell, the centre included.
pub const TRIGGER_SCOPE_CENTER_NEAR_TEMP_ID: u32 = 3;

/// Kind of stance operation.
#[derive(Debug, Clone, Copy, PartialEq, Eq, Structural)]
pub enum PosType {
    /// switch stance
    ChangePos,
    /// cancel stance
    CancelPos,
}

impl PosType {
    /// The number that stands for this variant on the wire and in configuration.
    pub open spec fn code(self) -> u8 {
        match self {
            PosType::ChangePos => 1u8,
            PosType::CancelPos => 2u8,
        }
    }

    pub fn into_u32(self) -> (r: u32)
        ensures
            r == self.code(),
    {
        match self {
            PosType::ChangePos => 1,
            PosType::CancelPos => 2,
        }
    }

    /// The variant whose code is `v`, if there is one.
    pub fn try_from_u8(v: u8) -> (r: Option<PosType>)
        ensures
            r matches Some(e) ==> e.code() == v,
            r is None <==> !(v == 1 || v == 2),
    {
        if v == 1 {
            Some(PosType::ChangePos)
        } else if v == 2 {
            Some(PosType::CancelPos)
        } else {
            None
        }
    }
}

/// Kind of effect an action has on a target.
#[derive(Debug, Clone, Copy, PartialEq, Eq, Structural)]
pub enum EffectType {
    /// skill damage
    SkillDamage,
    /// attack damage
    AttackDamage,
    /// healing
    Cure,
    /// damage reduction
    SubDamage,
    /// skill cooldown reduced
    SubSkillCd,
    /// item rewarded
    RewardItem,
    /// skill cooldown raised
    AddSkillCd,
    /// energy gained
    AddEnergy,
    /// skill gained
    AddSkill,
    /// skill cooldown refreshed
    RefreshSkillCd,
    /// cell position changed
    ChangeCellIndex,
}

impl EffectType {
    /// The number that stands for this variant on the wire and in configuration.
    pub open spec fn code(self) -> u8 {
        match self {
            EffectType::SkillDamage => 1u8,
            EffectType::AttackDamage => 2u8,
            EffectType::Cure => 3u8,
            EffectType::SubDamage => 4u8,
            EffectType::SubSkillCd => 5u8,
            EffectType::RewardItem => 6u8,
            EffectType::AddSkillCd => 7u8,
            EffectType::AddEnergy => 8u8,
            EffectType::AddSkill => 9u8,
            EffectType::RefreshSkillCd => 10u8,
            EffectType::ChangeCellIndex => 11u8,
        }
    }

    pub fn into_u32(self) -> (r: u32)
        ensures
            r == self.code(),
    {
        match self {
            EffectType::SkillDamage => 1,
            EffectType::AttackDamage => 2,
            EffectType::Cure => 3,
            EffectType::SubDamage => 4,
            EffectType::SubSkillCd => 5,
            EffectType::RewardItem => 6,
            EffectType::AddSkillCd => 7,
            EffectType::AddEnergy => 8,
            EffectType::AddSkill => 9,
            EffectType::RefreshSkillCd => 10,
            EffectType::ChangeCellIndex => 11,
        }
    }

    pub fn into_u8(self) -> (r: u8)
        ensures
            r == self.code(),
    {
        match self {
            EffectType::SkillDamage => 1,
            EffectType::AttackDamage => 2,
            EffectType::Cure => 3,
            EffectType::SubDamage => 4,
            EffectType::SubSkillCd => 5,
            EffectType::RewardItem => 6,
            EffectType::AddSkillCd => 7,
            EffectType::AddEnergy => 8,
            EffectType::AddSkill => 9,
            EffectType::RefreshSkillCd => 10,
            EffectType::ChangeCellIndex => 11,
        }
    }

    /// The variant whose code is `v`, if there is one.
    pub fn try_from_u8(v: u8) -> (r: Option<EffectType>)
        ensures
            r matches Some(e) ==> e.code() == v,
            r is None <==> !(v == 1 || v == 2 || v == 3 || v == 4 || v == 5 || v == 6 || v == 7 || v == 8 || v == 9 || v == 10 || v == 11),
    {
        if v == 1 {
            Some(EffectType::SkillDamage)
        } else if v == 2 {
            Some(EffectType::AttackDamage)
        } else if v == 3 {
            Some(EffectType::Cure)
        } else if v == 4 {
            Some(EffectType::SubDamage)
        } else if v == 5 {
            Some(EffectType::SubSkillCd)
        } else if v == 6 {
            Some(EffectType::RewardItem)
        } else if v == 7 {
            Some(EffectType::AddSkillCd)
        } else if v == 8 {
            Some(EffectType::AddEnergy)
        } else if v == 9 {
            Some(EffectType::AddSkill)
        } else if v == 10 {
            Some(EffectType::RefreshSkillCd)
        } else if v == 11 {
            Some(EffectType::ChangeCellIndex)
        } else {
            None
        }
    }
}

/// What using a skill costs.
#[derive(Debug, Clone, Copy, PartialEq, Eq, Structural)]
pub enum SkillConsumeType {
    /// the skill costs energy
    Energy,
}

impl SkillConsumeType {
    /// The number that stands for this variant on the wire and in configuration.
    pub open spec fn code(self) -> u8 {
        match self {
            SkillConsumeType::Energy => 1u8,
        }
    }

    pub fn into_u8(self) -> (r: u8)
        ensures
            r == self.code(),
    {
        match self {
            SkillConsumeType::Energy => 1,
        }
    }

    pub fn into_u32(self) -> (r: u32)
        ensures
            r == self.code(),
    {
        match self {
            SkillConsumeType::Energy => 1,
        }
    }

    /// The variant whose code is `v`, if there is one.
    pub fn try_from_u8(v: u8) -> (r: Option<SkillConsumeType>)
        ensures
            r matches Some(e) ==> e.code() == v,
            r is None <==> !(v == 1),
    {
        if v == 1 {
            Some(SkillConsumeType::Energy)
        } else {
            None
        }
    }
}

/// State of a player in a battle.
#[derive(Debug, Clone, Copy, PartialEq, Eq, Structural)]
pub enum BattlePlayerState {
    /// in the battle
    Normal,
    /// eliminated
    Died,
    /// disconnected
    OffLine,
}

impl BattlePlayerState {
    /// The number that stands for this variant on the wire and in configuration.
    pub open spec fn code(self) -> u8 {
        match self {
            BattlePlayerState::Normal => 0u8,
            BattlePlayerState::Died => 1u8,
            BattlePlayerState::OffLine => 2u8,
        }
    }

    pub fn into_u8(self) -> (r: u8)
        ensures
            r == self.code(),
    {
        match self {
            BattlePlayerState::Normal => 0,
            BattlePlayerState::Died => 1,
            BattlePlayerState::OffLine => 2,
        }
    }

    /// The variant whose code is `v`, if there is one.
    pub fn try_from_u8(v: u8) -> (r: Option<BattlePlayerState>)
        ensures
            r matches Some(e) ==> e.code() == v,
            r is None <==> !(v == 0 || v == 1 || v == 2),
    {
        if v == 0 {
            Some(BattlePlayerState::Normal)
        } else if v == 1 {
            Some(BattlePlayerState::Died)
        } else if v == 2 {
            Some(BattlePlayerState::OffLine)
        } else {
            None
        }
    }
}

impl Default for BattlePlayerState {
    fn default() -> (r: BattlePlayerState)
        ensures
            r == BattlePlayerState::Normal,
    {
        BattlePlayerState::Normal
    }
}

/// State of a character.
#[derive(Debug, Clone, Copy, PartialEq, Eq, Structural)]
pub enum BattleCterState {
    /// alive
    Alive,
    /// dead
    Died,
}

impl BattleCterState {
    /// The number that stands for this variant on the wire and in configuration.
    pub open spec fn code(self) -> u8 {
        match self {
            BattleCterState::Alive => 0u8,
            BattleCterState::Died => 1u8,
        }
    }

    pub fn into_u8(self) -> (r: u8)
        ensures
            r == self.code(),
    {
        match self {
            BattleCterState::Alive => 0,
            BattleCterState::Died => 1,
        }
    }

    /// The variant whose code is `v`, if there is one.
    pub fn try_from_u8(v: u8) -> (r: Option<BattleCterState>)
        ensures
            r matches Some(e) ==> e.code() == v,
            r is None <==> !(v == 0 || v == 1),
    {
        if v == 0 {
            Some(BattleCterState::Alive)
        } else if v == 1 {
            Some(BattleCterState::Died)
        } else {
            None
        }
    }
}

impl Default for BattleCterState {
    fn default() -> (r: BattleCterState)
        ensures
            r == BattleCterState::Alive,
    {
        BattleCterState::Alive
    }
}

/// Whether a player may attack.
#[derive(Debug, Clone, Copy, PartialEq, Eq, Structural)]
pub enum AttackState {
    /// no attack available
    Invalid,
    /// may attack
    Able,
    /// attack locked
    Locked,
}

impl AttackState {
    /// The number that stands for this variant on the wire and in configuration.
    pub open spec fn code(self) -> u8 {
        match self {
            AttackState::Invalid => 0u8,
            AttackState::Able => 1u8,
            AttackState::Locked => 2u8,
        }
    }

    pub fn into_u8(self) -> (r: u8)
        ensures
            r == self.code(),
    {
        match self {
            AttackState::Invalid => 0,
            AttackState::Able => 1,
            AttackState::Locked => 2,
        }
    }

    /// The variant whose code is `v`, if there is one.
    pub fn try_from_u8(v: u8) -> (r: Option<AttackState>)
        ensures
            r matches Some(e) ==> e.code() == v,
            r is None <==> !(v == 0 || v == 1 || v == 2),
    {
        if v == 0 {
            Some(AttackState::Invalid)
        } else if v == 1 {
            Some(AttackState::Able)
        } else if v == 2 {
            Some(AttackState::Locked)
        } else {
            None
        }
    }
}

impl Default for AttackState {
    fn default() -> (r: AttackState)
        ensures
            r == AttackState::Invalid,
    {
        AttackState::Invalid
    }
}

/// Kind of action taken in a turn.
#[derive(Debug, Clone, Copy, PartialEq, Eq, Structural)]
pub enum ActionType {
    /// no action
    Invalid,
    /// normal attack
    Attack,
    /// item used
    UseItem,
    /// turn skipped
    Skip,
    /// cell opened
    Open,
    /// skill used
    Skill,
    /// buff triggered
    Buff,
    /// end of showing cells
    EndShowMapCell,
}

impl ActionType {
    /// The number that stands for this variant on the wire and in configuration.
    pub open spec fn code(self) -> u8 {
        match self {
            ActionType::Invalid => 0u8,
            ActionType::Attack => 1u8,
            ActionType::UseItem => 2u8,
            ActionType::Skip => 3u8,
            ActionType::Open => 4u8,
            ActionType::Skill => 5u8,
            ActionType::Buff => 6u8,
            ActionType::EndShowMapCell => 7u8,
        }
    }

    pub fn into_u32(self) -> (r: u32)
        ensures
            r == self.code(),
    {
        match self {
            ActionType::Invalid => 0,
            ActionType::Attack => 1,
            ActionType::UseItem => 2,
            ActionType::Skip => 3,
            ActionType::Open => 4,
            ActionType::Skill => 5,
            ActionType::Buff => 6,
            ActionType::EndShowMapCell => 7,
        }
    }

    pub fn into_u8(self) -> (r: u8)
        ensures
            r == self.code(),
    {
        match self {
            ActionType::Invalid => 0,
            ActionType::Attack => 1,
            ActionType::UseItem => 2,
            ActionType::Skip => 3,
            ActionType::Open => 4,
            ActionType::Skill => 5,
            ActionType::Buff => 6,
            ActionType::EndShowMapCell => 7,
        }
    }

    /// The variant whose code is `v`, if there is one.
    pub fn try_from_u8(v: u8) -> (r: Option<ActionType>)
        ensures
            r matches Some(e) ==> e.code() == v,
            r is None <==> !(v == 0 || v == 1 || v == 2 || v == 3 || v == 4 || v == 5 || v == 6 || v == 7),
    {
        if v == 0 {
            Some(ActionType::Invalid)
        } else if v == 1 {
            Some(ActionType::Attack)
        } else if v == 2 {
            Some(ActionType::UseItem)
        } else if v == 3 {
            Some(ActionType::Skip)
        } else if v == 4 {
            Some(ActionType::Open)
        } else if v == 5 {
            Some(ActionType::Skill)
        } else if v == 6 {
            Some(ActionType::Buff)
        } else if v == 7 {
            Some(ActionType::EndShowMapCell)
        } else {
            None
        }
    }
}

/// Kind of target a skill or buff takes.
#[derive(Debug, Clone, Copy, PartialEq, Eq, Structural)]
pub enum TargetType {
    Invalid,
    MapCell,
    AnyPlayer,
    PlayerSelf,
    AllPlayer,
    OtherAllPlayer,
    OtherAnyPlayer,
    UnOpenMapCell,
    UnPairMapCell,
    NullMapCell,
    UnPairNullMapCell,
    MapCellPlayer,
    SelfScopeOthers,
    SelfScopeAnyOthers,
    SelfScopeAll,
    SelfScopeAny,
    OpenedMapCell,
    MapCellOtherPlayer,
    UnOpenMapCellAndUnLock,
    UnLockNullMapCell,
    UnOpenNullMapCell,
    AllEnemyCters,
    AllTeamCters,
    AnyEnemyCter,
    AnyTeamCter,
    SelfScopeAllEnemyCters,
    SelfScopeAnyEnemyCters,
    MapCellEnemys,
}

impl TargetType {
    /// The number that stands for this variant on the wire and in configuration.
    pub open spec fn code(self) -> u8 {
        match self {
            TargetType::Invalid => 0u8,
            TargetType::MapCell => 1u8,
            TargetType::AnyPlayer => 2u8,
            TargetType::PlayerSelf => 3u8,
            TargetType::AllPlayer => 4u8,
            TargetType::OtherAllPlayer => 5u8,
            TargetType::OtherAnyPlayer => 6u8,
            TargetType::UnOpenMapCell => 7u8,
            TargetType::UnPairMapCell => 8u8,
            TargetType::NullMapCell => 9u8,
            TargetType::UnPairNullMapCell => 10u8,
            TargetType::MapCellPlayer => 11u8,
            TargetType::SelfScopeOthers => 12u8,
            TargetType::SelfScopeAnyOthers => 13u8,
            TargetType::SelfScopeAll => 14u8,
            TargetType::SelfScopeAny => 15u8,
            TargetType::OpenedMapCell => 16u8,
            TargetType::MapCellOtherPlayer => 17u8,
            TargetType::UnOpenMapCellAndUnLock => 18u8,
            TargetType::UnLockNullMapCell => 19u8,
            TargetType::UnOpenNullMapCell => 20u8,
            TargetType::AllEnemyCters => 21u8,
            TargetType::AllTeamCters => 22u8,
            TargetType::AnyEnemyCter => 23u8,
            TargetType::AnyTeamCter => 24u8,
            TargetType::SelfScopeAllEnemyCters => 25u8,
            TargetType::SelfScopeAnyEnemyCters => 26u8,
            TargetType::MapCellEnemys => 27u8,
        }
    }

    pub fn into_u8(self) -> (r: u8)
        ensures
            r == self.code(),
    {
        match self {
            TargetType::Invalid => 0,
            TargetType::MapCell => 1,
            TargetType::AnyPlayer => 2,
            TargetType::PlayerSelf => 3,
            TargetType::AllPlayer => 4,
            TargetType::OtherAllPlayer => 5,
            TargetType::OtherAnyPlayer => 6,
            TargetType::UnOpenMapCell => 7,
            TargetType::UnPairMapCell => 8,
            TargetType::NullMapCell => 9,
            TargetType::UnPairNullMapCell => 10,
            TargetType::MapCellPlayer => 11,
            TargetType::SelfScopeOthers => 12,
            TargetType::SelfScopeAnyOthers => 13,
            TargetType::SelfScopeAll => 14,
            TargetType::SelfScopeAny => 15,
            TargetType::OpenedMapCell => 16,
            TargetType::MapCellOtherPlayer => 17,
            TargetType::UnOpenMapCellAndUnLock => 18,
            TargetType::UnLockNullMapCell => 19,
            TargetType::UnOpenNullMapCell => 20,
            TargetType::AllEnemyCters => 21,
            TargetType::AllTeamCters => 22,
            TargetType::AnyEnemyCter => 23,
            TargetType::AnyTeamCter => 24,
            TargetType::SelfScopeAllEnemyCters => 25,
            TargetType::SelfScopeAnyEnemyCters => 26,
            TargetType::MapCellEnemys => 27,
        }
    }

    pub fn into_u32(self) -> (r: u32)
        ensures
            r == self.code(),
    {
        match self {
            TargetType::Invalid => 0,
            TargetType::MapCell => 1,
            TargetType::AnyPlayer => 2,
            TargetType::PlayerSelf => 3,
            TargetType::AllPlayer => 4,
            TargetType::OtherAllPlayer => 5,
            TargetType::OtherAnyPlayer => 6,
            TargetType::UnOpenMapCell => 7,
            TargetType::UnPairMapCell => 8,
            TargetType::NullMapCell => 9,
            TargetType::UnPairNullMapCell => 10,
            TargetType::MapCellPlayer => 11,
            TargetType::SelfScopeOthers => 12,
            TargetType::SelfScopeAnyOthers => 13,
            TargetType::SelfScopeAll => 14,
            TargetType::SelfScopeAny => 15,
            TargetType::OpenedMapCell => 16,
            TargetType::MapCellOtherPlayer => 17,
            TargetType::UnOpenMapCellAndUnLock => 18,
            TargetType::UnLockNullMapCell => 19,
            TargetType::UnOpenNullMapCell => 20,
            TargetType::AllEnemyCters => 21,
            TargetType::AllTeamCters => 22,
            TargetType::AnyEnemyCter => 23,
            TargetType::AnyTeamCter => 24,
            TargetType::SelfScopeAllEnemyCters => 25,
            TargetType::SelfScopeAnyEnemyCters => 26,
            TargetType::MapCellEnemys => 27,
        }
    }

    /// The variant that number `v` stands for (see `code`); `Invalid` for a
    /// number that stands for none.
    pub open spec fn from_code(v: u8) -> TargetType {
        if v == 0 {
            TargetType::Invalid
        } else if v == 1 {
            TargetType::MapCell
        } else if v == 2 {
            TargetType::AnyPlayer
        } else if v == 3 {
            TargetType::PlayerSelf
        } else if v == 4 {
            TargetType::AllPlayer
        } else if v == 5 {
            TargetType::OtherAllPlayer
        } else if v == 6 {
            TargetType::OtherAnyPlayer
        } else if v == 7 {
            TargetType::UnOpenMapCell
        } else if v == 8 {
            TargetType::UnPairMapCell
        } else if v == 9 {
            TargetType::NullMapCell
        } else if v == 10 {
            TargetType::UnPairNullMapCell
        } else if v == 11 {
            TargetType::MapCellPlayer
        } else if v == 12 {
            TargetType::SelfScopeOthers
        } else if v == 13 {
            TargetType::SelfScopeAnyOthers
        } else if v == 14 {
            TargetType::SelfScopeAll
        } else if v == 15 {
            TargetType::SelfScopeAny
        } else if v == 16 {
            TargetType::OpenedMapCell
        } else if v == 17 {
            TargetType::MapCellOtherPlayer
        } else if v == 18 {
            TargetType::UnOpenMapCellAndUnLock
        } else if v == 19 {
            TargetType::UnLockNullMapCell
        } else if v == 20 {
            TargetType::UnOpenNullMapCell
        } else if v == 21 {
            TargetType::AllEnemyCters
        } else if v == 22 {
            TargetType::AllTeamCters
        } else if v == 23 {
            TargetType::AnyEnemyCter
        } else if v == 24 {
            TargetType::AnyTeamCter
        } else if v == 25 {
            TargetType::SelfScopeAllEnemyCters
        } else if v == 26 {
            TargetType::SelfScopeAnyEnemyCters
        } else if v == 27 {
            TargetType::MapCellEnemys
        } else {
            TargetType::Invalid
        }
    }

    /// The variant whose code is `v`, if there is one.
    pub fn try_from_u8(v: u8) -> (r: Option<TargetType>)
        ensures
            r matches Some(e) ==> e.code() == v,
            r is Some ==> r == Some(TargetType::from_code(v)),
            r is None <==> !(v == 0 || v == 1 || v == 2 || v == 3 || v == 4 || v == 5 || v == 6 || v == 7 || v == 8 || v == 9 || v == 10 || v == 11 || v == 12 || v == 13 || v == 14 || v == 15 || v == 16 || v == 17 || v == 18 || v == 19 || v == 20 || v == 21 || v == 22 || v == 23 || v == 24 || v == 25 || v == 26 || v == 27),
    {
        if v == 0 {
            Some(TargetType::Invalid)
        } else if v == 1 {
            Some(TargetType::MapCell)
        } else if v == 2 {
            Some(TargetType::AnyPlayer)
        } else if v == 3 {
            Some(TargetType::PlayerSelf)
        } else if v == 4 {
            Some(TargetType::AllPlayer)
        } else if v == 5 {
            Some(TargetType::OtherAllPlayer)
        } else if v == 6 {
            Some(TargetType::OtherAnyPlayer)
        } else if v == 7 {
            Some(TargetType::UnOpenMapCell)
        } else if v == 8 {
            Some(TargetType::UnPairMapCell)
        } else if v == 9 {
            Some(TargetType::NullMapCell)
        } else if v == 10 {
            Some(TargetType::UnPairNullMapCell)
        } else if v == 11 {
            Some(TargetType::MapCellPlayer)
        } else if v == 12 {
            Some(TargetType::SelfScopeOthers)
        } else if v == 13 {
            Some(TargetType::SelfScopeAnyOthers)
        } else if v == 14 {
            Some(TargetType::SelfScopeAll)
        } else if v == 15 {
            Some(TargetType::SelfScopeAny)
        } else if v == 16 {
            Some(TargetType::OpenedMapCell)
        } else if v == 17 {
            Some(TargetType::MapCellOtherPlayer)
        } else if v == 18 {
            Some(TargetType::UnOpenMapCellAndUnLock)
        } else if v == 19 {
            Some(TargetType::UnLockNullMapCell)
        } else if v == 20 {
            Some(TargetType::UnOpenNullMapCell)
        } else if v == 21 {
            Some(TargetType::AllEnemyCters)
        } else if v == 22 {
            Some(TargetType::AllTeamCters)
        } else if v == 23 {
            Some(TargetType::AnyEnemyCter)
        } else if v == 24 {
            Some(TargetType::AnyTeamCter)
        } else if v == 25 {
            Some(TargetType::SelfScopeAllEnemyCters)
        } else if v == 26 {
            Some(TargetType::SelfScopeAnyEnemyCters)
        } else if v == 27 {
            Some(TargetType::MapCellEnemys)
        } else {
            None
        }
    }
}

/// Element of a cell or a character.
#[derive(Debug, Clone, Copy, PartialEq, Eq, Structural)]
pub enum ElementType {
    /// nature
    Nature,
    /// earth
    Earth,
    /// water
    Water,
    /// fire
    Fire,
}

impl ElementType {
    /// The number that stands for this variant on the wire and in configuration.
    pub open spec fn code(self) -> u8 {
        match self {
            ElementType::Nature => 1u8,
            ElementType::Earth => 2u8,
            ElementType::Water => 3u8,
            ElementType::Fire => 4u8,
        }
    }

    pub fn into_u8(self) -> (r: u8)
        ensures
            r == self.code(),
    {
        match self {
            ElementType::Nature => 1,
            ElementType::Earth => 2,
            ElementType::Water => 3,
            ElementType::Fire => 4,
        }
    }

    /// The variant whose code is `v`, if there is one.
    pub fn try_from_u8(v: u8) -> (r: Option<ElementType>)
        ensures
            r matches Some(e) ==> e.code() == v,
            r is None <==> !(v == 1 || v == 2 || v == 3 || v == 4),
    {
        if v == 1 {
            Some(ElementType::Nature)
        } else if v == 2 {
            Some(ElementType::Earth)
        } else if v == 3 {
            Some(ElementType::Water)
        } else if v == 4 {
            Some(ElementType::Fire)
        } else {
            None
        }
    }
}

/// Distinct variants of `PosType` have distinct numbers, so the variant read
/// back from a variant's number is that variant.
pub proof fn law_pos_type_codes_distinct(a: PosType, b: PosType)
    ensures
        a.code() == b.code() ==> a == b,
{
}

/// Distinct variants of `EffectType` have distinct numbers, so the variant read
/// back from a variant's number is that variant.
pub proof fn law_effect_type_codes_distinct(a: EffectType, b: EffectType)
    ensures
        a.code() == b.code() ==> a == b,
{
}

/// Distinct variants of `SkillConsumeType` have distinct numbers, so the variant read
/// back from a variant's number is that variant.
pub proof fn law_skill_consume_type_codes_distinct(a: SkillConsumeType, b: SkillConsumeType)
    ensures
        a.code() == b.code() ==> a == b,
{
}

/// Distinct variants of `BattlePlayerState` have distinct numbers, so the variant read
/// back from a variant's number is that variant.
pub proof fn law_battle_player_state_codes_distinct(a: BattlePlayerState, b: BattlePlayerState)
    ensures
        a.code() == b.code() ==> a == b,
{
}

/// Distinct variants of `BattleCterState` have distinct numbers, so the variant read
/// back from a variant's number is that variant.
pub proof fn law_battle_cter_state_codes_distinct(a: BattleCterState, b: BattleCterState)
    ensures
        a.code() == b.code() ==> a == b,
{
}

/// Distinct variants of `AttackState` have distinct numbers, so the variant read
/// back from a variant's number is that variant.
pub proof fn law_attack_state_codes_distinct(a: AttackState, b: AttackState)
    ensures
        a.code() == b.code() ==> a == b,
{
}

/// Distinct variants of `ActionType` have distinct numbers, so the variant read
/// back from a variant's number is that variant.
pub proof fn law_action_type_codes_distinct(a: ActionType, b: ActionType)
    ensures
        a.code() == b.code() ==> a == b,
{
}

/// Distinct variants of `TargetType` have distinct numbers, so the variant read
/// back from a variant's number is that variant.
pub proof fn law_target_type_codes_distinct(a: TargetType, b: TargetType)
    ensures
        a.code() == b.code() ==> a == b,
{
}

/// Distinct variants of `ElementType` have distinct numbers, so the variant read
/// back from a variant's number is that variant.
pub proof fn law_element_type_codes_distinct(a: ElementType, b: ElementType)
    ensures
        a.code() == b.code() ==> a == b,
{
}

} // verus!
