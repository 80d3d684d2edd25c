//! Skills of a character and their cooldown bookkeeping.

use vstd::prelude::*;

verus! {

/// The configured values of a skill.
#[derive(Debug, Clone, Copy, PartialEq, Eq, Structural)]
pub struct SkillTemp {
    pub id: u32,
    /// function id: which rule the skill runs
    pub function_id: u32,
    /// cooldown in turns after use
    pub cd: i8,
    /// what using the skill costs (see `SkillConsumeType`)
    pub consume_type: u8,
    /// how much energy the skill costs, where it costs energy
    pub consume_value: u8,
    /// id of the condition checked before use, 0 for none
    pub skill_judge: u32,
    /// kind of target (see `TargetType`)
    pub target: u32,
    /// scope configuration id
    pub scope: u32,
    pub par1: u32,
    pub par2: u32,
    /// who sees what the skill shows (see `TargetType`)
    pub view_target: u8,
}

/// A skill a character holds.
#[derive(Debug, Clone, Copy, PartialEq, Eq, Structural)]
pub struct Skill {
    pub id: u32,
    /// function id: which rule the skill runs
    pub function_id: u32,
    pub skill_temp: SkillTemp,
    /// turns of cooldown left; ignored where the skill costs energy
    pub cd_times: i8,
    /// whether the skill is active
    pub is_active: bool,
}

/// The cooldown left after `cd_times` is moved by `value`, held inside `0..=cd`.
pub open spec fn clamped_cd(cd_times: i8, value: i8, cd: i8) -> int {
    let s = cd_times + value;
    if s < 0 {
        0
    } else if s > cd {
        cd as int
    } else {
        s
    }
}

impl Skill {
    /// A fresh, inactive skill with no cooldown, made from its configuration.
    pub fn from_temp(skill_temp: SkillTemp) -> (r: Skill)
        ensures
            r.id == skill_temp.id,
            r.function_id == skill_temp.function_id,
            r.skill_temp == skill_temp,
            r.cd_times == 0,
            !r.is_active,
    {
        Skill {
            id: skill_temp.id,
            function_id: skill_temp.function_id,
            cd_times: 0,
            skill_temp,
            is_active: false,
        }
    }

    /// Moves the cooldown by `value` and holds it between 0 and the configured cooldown.
    pub fn add_cd(&mut self, value: i8)
        requires
            i8::MIN <= old(self).cd_times + value <= i8::MAX,
        ensures
            final(self).cd_times == clamped_cd(old(self).cd_times, value, old(self).skill_temp.cd),
            final(self).id == old(self).id,
            final(self).function_id == old(self).function_id,
            final(self).skill_temp == old(self).skill_temp,
            final(self).is_active == old(self).is_active,
    {
        self.cd_times = self.cd_times + value;
        if self.cd_times < 0 {
            self.cd_times = 0;
        } else if self.cd_times > self.skill_temp.cd {
            self.cd_times = self.skill_temp.cd;
        }
    }

    /// Clears the cooldown.
    pub fn clean_cd(&mut self)
        ensures
            *final(self) == (Skill { cd_times: 0, ..*old(self) }),
    {
        self.cd_times = 0;
    }

    /// Restarts the cooldown at its configured length.
    pub fn reset_cd(&mut self)
        ensures
            *final(self) == (Skill { cd_times: old(self).skill_temp.cd, ..*old(self) }),
    {
        self.cd_times = self.skill_temp.cd;
    }
}

/// Moving a cooldown never leaves the range `0..=cd` when the configured cooldown is not negative.
pub proof fn lemma_add_cd_in_range(cd_times: i8, value: i8, cd: i8)
    requires
        cd >= 0,
    ensures
        0 <= clamped_cd(cd_times, value, cd) <= cd,
{
}

} // verus!
