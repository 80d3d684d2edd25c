//! Timed tasks of a battle server.

use vstd::prelude::*;

verus! {

/// Kind of timed task.
#[derive(Debug, Clone, Copy, PartialEq, Eq, Structural)]
pub enum TaskCmd {
    /// no task
    Invalid,
    /// a matched room starts
    MatchRoomStart,
    /// time to choose a cell is over
    ChoiceIndex,
    /// time of a turn is over
    BattleTurnTime,
    /// the battle reached its largest number of turns
    MaxBattleTurnTimes,
}

impl TaskCmd {
    /// The number that stands for this variant on the wire and in configuration.
    pub open spec fn code(self) -> u16 {
        match self {
            TaskCmd::Invalid => 0u16,
            TaskCmd::MatchRoomStart => 1u16,
            TaskCmd::ChoiceIndex => 2u16,
            TaskCmd::BattleTurnTime => 3u16,
            TaskCmd::MaxBattleTurnTimes => 4u16,
        }
    }

    pub fn into_u16(self) -> (r: u16)
        ensures
            r == self.code(),
    {
        match self {
            TaskCmd::Invalid => 0,
            TaskCmd::MatchRoomStart => 1,
            TaskCmd::ChoiceIndex => 2,
            TaskCmd::BattleTurnTime => 3,
            TaskCmd::MaxBattleTurnTimes => 4,
        }
    }

    /// The variant whose code is `v`, if there is one.
    pub fn try_from_u16(v: u16) -> (r: Option<TaskCmd>)
        ensures
            r matches Some(e) ==> e.code() == v,
            r is None <==> !(v == 0 || v == 1 || v == 2 || v == 3 || v == 4),
    {
        if v == 0 {
            Some(TaskCmd::Invalid)
        } else if v == 1 {
            Some(TaskCmd::MatchRoomStart)
        } else if v == 2 {
            Some(TaskCmd::ChoiceIndex)
        } else if v == 3 {
            Some(TaskCmd::BattleTurnTime)
        } else if v == 4 {
            Some(TaskCmd::MaxBattleTurnTimes)
        } else {
            None
        }
    }
}

impl Default for TaskCmd {
    fn default() -> (r: TaskCmd)
        ensures
            r == TaskCmd::Invalid,
    {
        TaskCmd::Invalid
    }
}

/// A timed task: what to do, after how long, and the user it is about.
pub struct Task {
    pub cmd: TaskCmd,
    /// delay before the task runs, in milliseconds
    pub delay: u64,
    /// the user the task concerns
    pub user_id: u32,
    /// the position the task concerns, where it concerns one
    pub index: Option<usize>,
}

impl Task {
    /// A task that does nothing, at once.
    pub fn new() -> (r: Task)
        ensures
            r.cmd == TaskCmd::Invalid,
            r.delay == 0,
            r.user_id == 0,
            r.index is None,
    {
        Task { cmd: TaskCmd::Invalid, delay: 0, user_id: 0, index: None }
    }
}

/// Distinct variants of `TaskCmd` have distinct numbers, so the variant read
/// back from a variant's number is that variant.
pub proof fn law_task_cmd_codes_distinct(a: TaskCmd, b: TaskCmd)
    ensures
        a.code() == b.code() ==> a == b,
{
}

} // verus!
