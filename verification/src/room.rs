//! Rooms: their kinds and states, members, settings.

use vstd::prelude::*;

verus! {

/// Largest number of members in a room.
pub const MEMBER_MAX: usize = 4;

/// Bounds of team ids.
#[derive(Debug, Clone, Copy, PartialEq, Eq, Structural)]
pub enum TeamId {
    /// smallest team id
    Min,
    /// largest team id
    Max,
}

impl TeamId {
    /// The number that stands for this variant on the wire and in configuration.
    pub open spec fn code(self) -> u8 {
        match self {
            TeamId::Min => 1u8,
            TeamId::Max => 4u8,
        }
    }

    pub fn into_u8(self) -> (r: u8)
        ensures
            r == self.code(),
    {
        match self {
            TeamId::Min => 1,
            TeamId::Max => 4,
        }
    }

    /// The variant whose code is `v`, if there is one.
    pub fn try_from_u8(v: u8) -> (r: Option<TeamId>)
        ensures
            r matches Some(e) ==> e.code() == v,
            r is None <==> !(v == 1 || v == 4),
    {
        if v == 1 {
            Some(TeamId::Min)
        } else if v == 4 {
            Some(TeamId::Max)
        } else {
            None
        }
    }
}

/// Kind of room.
#[derive(Debug, Clone, Copy, PartialEq, Eq, Structural)]
pub enum RoomType {
    /// no room
    Invalid,
    /// four players, custom room
    OneVOneVOneVOneCustom,
    /// four players, matched room
    OneVOneVOneVOneMatch,
    /// world boss, custom room
    WorldBossCustom,
    /// world boss, matched room
    WorldBoseMatch,
}

impl RoomType {
    /// The number that stands for this variant on the wire and in configuration.
    pub open spec fn code(self) -> u8 {
        match self {
            RoomType::Invalid => 0u8,
            RoomType::OneVOneVOneVOneCustom => 1u8,
            RoomType::OneVOneVOneVOneMatch => 2u8,
            RoomType::WorldBossCustom => 3u8,
            RoomType::WorldBoseMatch => 4u8,
        }
    }

    pub fn into_u8(self) -> (r: u8)
        ensures
            r == self.code(),
    {
        match self {
            RoomType::Invalid => 0,
            RoomType::OneVOneVOneVOneCustom => 1,
            RoomType::OneVOneVOneVOneMatch => 2,
            RoomType::WorldBossCustom => 3,
            RoomType::WorldBoseMatch => 4,
        }
    }

    pub fn into_u32(self) -> (r: u32)
        ensures
            r == self.code(),
    {
        match self {
            RoomType::Invalid => 0,
            RoomType::OneVOneVOneVOneCustom => 1,
            RoomType::OneVOneVOneVOneMatch => 2,
            RoomType::WorldBossCustom => 3,
            RoomType::WorldBoseMatch => 4,
        }
    }

    /// The variant whose code is `v`, if there is one.
    pub fn try_from_u8(v: u8) -> (r: Option<RoomType>)
        ensures
            r matches Some(e) ==> e.code() == v,
            r is None <==> !(v == 0 || v == 1 || v == 2 || v == 3 || v == 4),
    {
        if v == 0 {
            Some(RoomType::Invalid)
        } else if v == 1 {
            Some(RoomType::OneVOneVOneVOneCustom)
        } else if v == 2 {
            Some(RoomType::OneVOneVOneVOneMatch)
        } else if v == 3 {
            Some(RoomType::WorldBossCustom)
        } else if v == 4 {
            Some(RoomType::WorldBoseMatch)
        } else {
            None
        }
    }
}

/// State of a room.
#[derive(Debug, Clone, Copy, PartialEq, Eq, Structural)]
pub enum RoomState {
    /// waiting for members to enter (matched rooms only)
    AwaitConfirm,
    /// waiting
    AwaitReady,
    /// members choose their cells
    ChoiceIndex,
    /// the battle runs
    BattleStarted,
    /// the battle is over
    BattleOvered,
}

impl RoomState {
    /// The number that stands for this variant on the wire and in configuration.
    pub open spec fn code(self) -> u8 {
        match self {
            RoomState::AwaitConfirm => 0u8,
            RoomState::AwaitReady => 1u8,
            RoomState::ChoiceIndex => 2u8,
            RoomState::BattleStarted => 3u8,
            RoomState::BattleOvered => 4u8,
        }
    }

    pub fn into_u8(self) -> (r: u8)
        ensures
            r == self.code(),
    {
        match self {
            RoomState::AwaitConfirm => 0,
            RoomState::AwaitReady => 1,
            RoomState::ChoiceIndex => 2,
            RoomState::BattleStarted => 3,
            RoomState::BattleOvered => 4,
        }
    }

    /// The variant whose code is `v`, if there is one.
    pub fn try_from_u8(v: u8) -> (r: Option<RoomState>)
        ensures
            r matches Some(e) ==> e.code() == v,
            r is None <==> !(v == 0 || v == 1 || v == 2 || v == 3 || v == 4),
    {
        if v == 0 {
            Some(RoomState::AwaitConfirm)
        } else if v == 1 {
            Some(RoomState::AwaitReady)
        } else if v == 2 {
            Some(RoomState::ChoiceIndex)
        } else if v == 3 {
            Some(RoomState::BattleStarted)
        } else if v == 4 {
            Some(RoomState::BattleOvered)
        } else {
            None
        }
    }
}

/// Kind of notice about a member.
#[derive(Debug, Clone, Copy, PartialEq, Eq, Structural)]
pub enum RoomMemberNoticeType {
    /// no notice
    Invalid,
    /// a member was updated
    UpdateMember,
}

impl RoomMemberNoticeType {
    /// The number that stands for this variant on the wire and in configuration.
    pub open spec fn code(self) -> u8 {
        match self {
            RoomMemberNoticeType::Invalid => 0u8,
            RoomMemberNoticeType::UpdateMember => 2u8,
        }
    }

    pub fn into_u8(self) -> (r: u8)
        ensures
            r == self.code(),
    {
        match self {
            RoomMemberNoticeType::Invalid => 0,
            RoomMemberNoticeType::UpdateMember => 2,
        }
    }

    /// The variant whose code is `v`, if there is one.
    pub fn try_from_u8(v: u8) -> (r: Option<RoomMemberNoticeType>)
        ensures
            r matches Some(e) ==> e.code() == v,
            r is None <==> !(v == 0 || v == 2),
    {
        if v == 0 {
            Some(RoomMemberNoticeType::Invalid)
        } else if v == 2 {
            Some(RoomMemberNoticeType::UpdateMember)
        } else {
            None
        }
    }
}

/// Why a member left.
#[derive(Debug, Clone, Copy, PartialEq, Eq, Structural)]
pub enum MemberLeaveNoticeType {
    /// no notice
    Invalid,
    /// left
    Leave,
    /// was kicked
    Kicked,
    /// went offline
    OffLine,
}

impl MemberLeaveNoticeType {
    /// The number that stands for this variant on the wire and in configuration.
    pub open spec fn code(self) -> u8 {
        match self {
            MemberLeaveNoticeType::Invalid => 0u8,
            MemberLeaveNoticeType::Leave => 1u8,
            MemberLeaveNoticeType::Kicked => 2u8,
            MemberLeaveNoticeType::OffLine => 3u8,
        }
    }

    pub fn into_u32(self) -> (r: u32)
        ensures
            r == self.code(),
    {
        match self {
            MemberLeaveNoticeType::Invalid => 0,
            MemberLeaveNoticeType::Leave => 1,
            MemberLeaveNoticeType::Kicked => 2,
            MemberLeaveNoticeType::OffLine => 3,
        }
    }

    /// The variant whose code is `v`, if there is one.
    pub fn try_from_u8(v: u8) -> (r: Option<MemberLeaveNoticeType>)
        ensures
            r matches Some(e) ==> e.code() == v,
            r is None <==> !(v == 0 || v == 1 || v == 2 || v == 3),
    {
        if v == 0 {
            Some(MemberLeaveNoticeType::Invalid)
        } else if v == 1 {
            Some(MemberLeaveNoticeType::Leave)
        } else if v == 2 {
            Some(MemberLeaveNoticeType::Kicked)
        } else if v == 3 {
            Some(MemberLeaveNoticeType::OffLine)
        } else {
            None
        }
    }
}

/// Distinct variants of `TeamId` have distinct numbers, so the variant read
/// back from a variant's number is that variant.
pub proof fn law_team_id_codes_distinct(a: TeamId, b: TeamId)
    ensures
        a.code() == b.code() ==> a == b,
{
}

/// Distinct variants of `RoomType` have distinct numbers, so the variant read
/// back from a variant's number is that variant.
pub proof fn law_room_type_codes_distinct(a: RoomType, b: RoomType)
    ensures
        a.code() == b.code() ==> a == b,
{
}

/// Distinct variants of `RoomState` have distinct numbers, so the variant read
/// back from a variant's number is that variant.
pub proof fn law_room_state_codes_distinct(a: RoomState, b: RoomState)
    ensures
        a.code() == b.code() ==> a == b,
{
}

/// Distinct variants of `RoomMemberNoticeType` have distinct numbers, so the variant read
/// back from a variant's number is that variant.
pub proof fn law_room_member_notice_type_codes_distinct(a: RoomMemberNoticeType, b: RoomMemberNoticeType)
    ensures
        a.code() == b.code() ==> a == b,
{
}

/// Distinct variants of `MemberLeaveNoticeType` have distinct numbers, so the variant read
/// back from a variant's number is that variant.
pub proof fn law_member_leave_notice_type_codes_distinct(a: MemberLeaveNoticeType, b: MemberLeaveNoticeType)
    ensures
        a.code() == b.code() ==> a == b,
{
}

} // verus!
