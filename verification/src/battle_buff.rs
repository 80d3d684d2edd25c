//! Buffs: timed or triggered effects carried by characters and map cells.

use vstd::prelude::*;

verus! {

/// The configured values of a buff.
#[derive(Debug, Clone, Copy, PartialEq, Eq, Structural)]
pub struct BuffTemp {
    pub id: u32,
    /// function id: which rule the buff runs
    pub function_id: u32,
    /// how many times the buff may trigger, 0 for no limit
    pub trigger_times: i8,
    /// how many turns the buff lasts, 0 for no limit
    pub keep_time: i8,
    pub par1: u32,
    pub par2: u32,
    /// scope configuration id
    pub scope: u32,
}

/// One direction of a scope: offsets from a centre cell.
pub struct Direction {
    pub direction: Vec<isize>,
}

/// A buff carried by a character or a cell.
pub struct Buff {
    pub id: u32,
    /// function id: which rule the buff runs
    pub function_id: u32,
    pub buff_temp: BuffTemp,
    /// triggers left
    pub trigger_timesed: i8,
    /// turns left
    pub keep_times: i8,
    /// cells the buff acts on
    pub scope: Vec<Direction>,
    /// whether the buff never runs out
    pub permanent: bool,
    /// the character the buff came from
    pub from_cter: Option<u32>,
    /// the skill the buff came from
    pub from_skill: Option<u32>,
    /// the turn in which the buff takes effect
    pub turn_index: Option<usize>,
    /// users who can see this trap
    pub trap_view_users: Vec<u32>,
}

/// The triggers left after one is used: one fewer, but never below zero.
pub open spec fn after_trigger(t: i8) -> int {
    if t - 1 < 0 { 0 } else { t - 1 }
}

/// The turns left after one passes: one fewer for a buff with a limited
/// duration, never below zero.
pub open spec fn after_turn(keep_time: i8, t: i8) -> int {
    let k = if keep_time > 0 { t - 1 } else { t as int };
    if k < 0 { 0 } else { k }
}


/// The turns left after a buff is used in slot `next_turn_index`: one turn
/// passes where the duration is limited, `is_turn_index` holds and the buff
/// takes effect in that slot.
pub open spec fn keep_after_use(b: Buff, next_turn_index: usize, is_turn_index: bool) -> int {
    if b.buff_temp.keep_time > 0 && is_turn_index && b.turn_index == Some(next_turn_index) {
        after_turn(b.buff_temp.keep_time, b.keep_times)
    } else {
        b.keep_times as int
    }
}

/// The triggers left after a buff is used: one fewer where the use is not
/// the passing of a turn and the triggers are limited.
pub open spec fn trigger_after_use(b: Buff, is_turn_index: bool) -> int {
    if !(b.buff_temp.keep_time > 0 && is_turn_index) && b.buff_temp.trigger_times > 0 && !is_turn_index {
        after_trigger(b.trigger_timesed)
    } else {
        b.trigger_timesed as int
    }
}

/// Whether a buff with these limits and counts is spent: a buff without a
/// duration limit and no triggers left, a buff without a trigger limit and
/// no turns left, or a buff with both limits and either count at zero.
pub open spec fn buff_spent(keep_time: i8, trigger_times: i8, keep_times: int, trigger_timesed: int) -> bool {
    if keep_time == 0 && trigger_timesed <= 0 {
        true
    } else if trigger_times == 0 && keep_times <= 0 {
        true
    } else {
        trigger_times > 0 && keep_time > 0 && (keep_times == 0 || trigger_timesed == 0)
    }
}

/// `b` is the buff `Buff::new` makes of configuration `temp`, acting on
/// `scope`, from character `from_cter` and skill `from_skill`, for turn
/// `turn_index` (all but who can see it, where it is a trap).
pub open spec fn new_buff(b: Buff, temp: BuffTemp, scope: Seq<Direction>, turn_index: Option<usize>,
    from_cter: Option<u32>, from_skill: Option<u32>) -> bool {
    &&& b.id == temp.id
    &&& b.function_id == temp.function_id
    &&& b.buff_temp == temp
    &&& b.trigger_timesed == temp.trigger_times
    &&& b.keep_times == temp.keep_time
    &&& b.scope@ == scope
    &&& b.permanent == (temp.keep_time == 0 && temp.trigger_times == 0)
    &&& b.from_cter == from_cter
    &&& b.from_skill == from_skill
    &&& b.turn_index == (if temp.keep_time > 0 { turn_index } else { None })
}

impl Buff {
    /// The buff that a configuration describes, acting on `scope`; it has no
    /// source and no turn.
    pub fn from_temp(bt: BuffTemp, scope: Vec<Direction>) -> (r: Buff)
        ensures
            r.id == bt.id,
            r.function_id == bt.function_id,
            r.buff_temp == bt,
            r.trigger_timesed == bt.trigger_times,
            r.keep_times == bt.keep_time,
            r.scope@ == scope@,
            r.permanent == (bt.keep_time == 0 && bt.trigger_times == 0),
            r.from_cter is None,
            r.from_skill is None,
            r.turn_index is None,
            r.trap_view_users@ == Seq::<u32>::empty(),
    {
        Buff {
            id: bt.id,
            function_id: bt.function_id,
            trigger_timesed: bt.trigger_times,
            keep_times: bt.keep_time,
            buff_temp: bt,
            scope,
            permanent: bt.keep_time == 0 && bt.trigger_times == 0,
            from_cter: None,
            from_skill: None,
            turn_index: None,
            trap_view_users: Vec::new(),
        }
    }

    /// A new buff from its configuration, with its source; it takes a turn
    /// only where its duration is limited.
    pub fn new(
        temp: BuffTemp,
        scope: Vec<Direction>,
        turn_index: Option<usize>,
        from_cter: Option<u32>,
        from_skill: Option<u32>,
    ) -> (r: Buff)
        ensures
            r.id == temp.id,
            r.function_id == temp.function_id,
            r.buff_temp == temp,
            r.trigger_timesed == temp.trigger_times,
            r.keep_times == temp.keep_time,
            r.scope@ == scope@,
            r.permanent == (temp.keep_time == 0 && temp.trigger_times == 0),
            r.from_cter == from_cter,
            r.from_skill == from_skill,
            r.turn_index == (if temp.keep_time > 0 { turn_index } else { None }),
            r.trap_view_users@ == Seq::<u32>::empty(),
    {
        let mut buff = Buff::from_temp(temp, scope);
        if temp.keep_time > 0 {
            buff.turn_index = turn_index;
        }
        buff.from_cter = from_cter;
        buff.from_skill = from_skill;
        buff
    }

    pub fn get_id(&self) -> (r: u32)
        ensures
            r == self.id,
    {
        self.id
    }

    /// Uses one trigger.
    pub fn sub_trigger_timesed(&mut self)
        requires
            old(self).trigger_timesed > i8::MIN,
        ensures
            final(self).trigger_timesed == after_trigger(old(self).trigger_timesed),
            final(self).keep_times == old(self).keep_times,
            final(self).id == old(self).id,
            final(self).function_id == old(self).function_id,
            final(self).buff_temp == old(self).buff_temp,
            final(self).from_cter == old(self).from_cter,
            final(self).from_skill == old(self).from_skill,
            final(self).permanent == old(self).permanent,
            final(self).turn_index == old(self).turn_index,
            *final(self) == (Buff { trigger_timesed: final(self).trigger_timesed, ..*old(self) }),
    {
        self.trigger_timesed = self.trigger_timesed - 1;
        if self.trigger_timesed < 0 {
            self.trigger_timesed = 0;
        }
    }

    /// Lets one turn pass.
    pub fn sub_keep_times(&mut self)
        requires
            old(self).buff_temp.keep_time > 0 ==> old(self).keep_times > i8::MIN,
        ensures
            final(self).keep_times == after_turn(old(self).buff_temp.keep_time, old(self).keep_times),
            final(self).trigger_timesed == old(self).trigger_timesed,
            final(self).id == old(self).id,
            final(self).function_id == old(self).function_id,
            final(self).buff_temp == old(self).buff_temp,
            final(self).from_cter == old(self).from_cter,
            final(self).from_skill == old(self).from_skill,
            final(self).permanent == old(self).permanent,
            final(self).turn_index == old(self).turn_index,
            *final(self) == (Buff { keep_times: final(self).keep_times, ..*old(self) }),
    {
        if self.buff_temp.keep_time > 0 {
            self.keep_times = self.keep_times - 1;
        }
        if self.keep_times < 0 {
            self.keep_times = 0;
        }
    }
}

impl Buff {
    /// Uses the buff in slot `next_turn_index` (see `keep_after_use` and
    /// `trigger_after_use`) and tells whether it is spent. A permanent buff
    /// is left as it is and is never spent.
    pub fn consume(&mut self, next_turn_index: usize, is_turn_index: bool) -> (r: bool)
        requires
            old(self).keep_times > i8::MIN,
            old(self).trigger_timesed > i8::MIN,
        ensures
            final(self).id == old(self).id,
            final(self).function_id == old(self).function_id,
            final(self).buff_temp == old(self).buff_temp,
            final(self).permanent == old(self).permanent,
            final(self).from_cter == old(self).from_cter,
            final(self).from_skill == old(self).from_skill,
            final(self).turn_index == old(self).turn_index,
            old(self).permanent ==> !r && final(self).keep_times == old(self).keep_times
                && final(self).trigger_timesed == old(self).trigger_timesed,
            !old(self).permanent ==> {
                &&& final(self).keep_times == keep_after_use(*old(self), next_turn_index, is_turn_index)
                &&& final(self).trigger_timesed == trigger_after_use(*old(self), is_turn_index)
                &&& r == buff_spent(old(self).buff_temp.keep_time, old(self).buff_temp.trigger_times,
                    final(self).keep_times as int, final(self).trigger_timesed as int)
            },
    {
        if self.permanent {
            return false;
        }
        let cfg_keep_time = self.buff_temp.keep_time;
        let cfg_trigger_time = self.buff_temp.trigger_times;
        if cfg_keep_time > 0 && is_turn_index {
            match self.turn_index {
                Some(t) => {
                    if t == next_turn_index {
                        self.sub_keep_times();
                    }
                },
                None => {},
            }
        } else if cfg_trigger_time > 0 && !is_turn_index {
            self.sub_trigger_timesed();
        }
        if cfg_keep_time == 0 && self.trigger_timesed <= 0 {
            true
        } else if cfg_trigger_time == 0 && self.keep_times <= 0 {
            true
        } else {
            cfg_trigger_time > 0 && cfg_keep_time > 0 && (self.keep_times == 0 || self.trigger_timesed == 0)
        }
    }
}

/// Using a trigger or letting a turn pass never raises the count and never
/// leaves it below zero.
pub proof fn lemma_buff_counts_fall_to_zero(keep_time: i8, t: i8)
    ensures
        0 <= after_trigger(t),
        t >= 0 ==> after_trigger(t) <= t,
        0 <= after_turn(keep_time, t),
        t >= 0 ==> after_turn(keep_time, t) <= t,
        keep_time > 0 && t > 0 ==> after_turn(keep_time, t) == t - 1,
        keep_time <= 0 && t >= 0 ==> after_turn(keep_time, t) == t,
{
}

} // verus!
