//! Characters in a battle: their attributes, buffs, skills and items.

use vstd::prelude::*;
use crate::battle_buff::{Buff, BuffTemp, Direction, after_trigger, after_turn, buff_spent, new_buff};
use crate::battle_enum::BattleCterState;
use crate::battle_handler::{buff_position, first_buff_with_id, has_buff_id, skill_position};
use crate::battle_player::{IndexData, TransformInheritValue};
use crate::battle_skill::{clamped_cd, Skill, SkillTemp};
use crate::buff_type::{
    ADD_ATTACK, ADD_ATTACK_AND_AOE, ATTACKED_SUB_DAMAGE, CAN_NOT_MOVED, GD_ATTACK_DAMAGE,
    NEAR_ATTACKED_DAMAGE_ZERO, SUB_ATTACK_DAMAGE, SUB_MOVE_POINT,
};

verus! {

/// Basic attributes of a character.
#[derive(Debug, Clone, Copy, PartialEq, Eq, Structural)]
pub struct BaseAttr {
    pub cter_id: u32,
    /// the player the character belongs to
    pub user_id: u32,
    /// configuration id of the character
    pub cter_temp_id: u32,
    pub atk: u8,
    pub hp: i16,
    pub defence: u8,
    pub energy: u8,
    pub max_energy: u8,
    pub element: u8,
    /// how many items the character may carry
    pub item_max: u8,
    pub team_id: u8,
}

impl BaseAttr {
    /// All attributes zero.
    pub fn new() -> (r: BaseAttr)
        ensures
            r == (BaseAttr {
                cter_id: 0, user_id: 0, cter_temp_id: 0, atk: 0, hp: 0, defence: 0,
                energy: 0, max_energy: 0, element: 0, item_max: 0, team_id: 0,
            }),
    {
        BaseAttr {
            cter_id: 0, user_id: 0, cter_temp_id: 0, atk: 0, hp: 0, defence: 0,
            energy: 0, max_energy: 0, element: 0, item_max: 0, team_id: 0,
        }
    }
}

/// An item a character carries, with the skill it triggers.
#[derive(Debug, Clone, Copy, PartialEq, Eq, Structural)]
pub struct Item {
    pub id: u32,
    pub skill_temp: SkillTemp,
}

/// The buffs on a character, with the stacks of the buffs that raise or
/// lower damage. A stack list holds `(buff id, stacks)` pairs, one per id.
pub struct BattleBuff {
    pub buffs: Vec<Buff>,
    pub passive_buffs: Vec<Buff>,
    pub add_damage_buffs: Vec<(u32, u32)>,
    pub sub_damage_buffs: Vec<(u32, u32)>,
}

/// Whether a stack list holds an entry for `id`.
pub open spec fn has_stack(s: Seq<(u32, u32)>, id: u32) -> bool {
    exists|i: int| 0 <= i < s.len() && #[trigger] s[i].0 == id
}

/// `i` is the position of the first entry for `id` in a stack list.
pub open spec fn first_stack(s: Seq<(u32, u32)>, id: u32, i: int) -> bool {
    &&& 0 <= i < s.len()
    &&& s[i].0 == id
    &&& forall|j: int| 0 <= j < i ==> #[trigger] s[j].0 != id
}

/// The stack list after one more stack of `id`: the count of its entry goes
/// up by one, or an entry with one stack is appended.
pub open spec fn stack_added(old_s: Seq<(u32, u32)>, new_s: Seq<(u32, u32)>, id: u32) -> bool {
    if has_stack(old_s, id) {
        exists|i: int| first_stack(old_s, id, i) && new_s == old_s.update(i, (id, (old_s[i].1 + 1) as u32))
    } else {
        new_s == old_s.push((id, 1u32))
    }
}

/// Whether no entry for `id` has reached the largest count.
pub open spec fn stack_can_grow(s: Seq<(u32, u32)>, id: u32) -> bool {
    forall|i: int| 0 <= i < s.len() && #[trigger] s[i].0 == id ==> s[i].1 < u32::MAX
}

/// Position of the first entry for `id` in a stack list.
fn stack_position(v: &Vec<(u32, u32)>, id: u32) -> (r: Option<usize>)
    ensures
        r is None <==> !has_stack(v@, id),
        r matches Some(i) ==> first_stack(v@, id, i as int),
{
    let mut i: usize = 0;
    while i < v.len()
        invariant
            i <= v.len(),
            forall|j: int| 0 <= j < i ==> #[trigger] v@[j].0 != id,
        decreases v.len() - i,
    {
        if v[i].0 == id {
            return Some(i);
        }
        i = i + 1;
    }
    None
}

/// Adds one stack of `id` to a stack list.
fn add_stack(v: &mut Vec<(u32, u32)>, id: u32)
    requires
        stack_can_grow(old(v)@, id),
    ensures
        stack_added(old(v)@, final(v)@, id),
{
    match stack_position(v, id) {
        Some(i) => {
            let n = v[i].1;
            v.set(i, (id, n + 1));
        },
        None => {
            v.push((id, 1));
        },
    }
}

/// Removes every entry for `id` from a stack list.
fn remove_stacks(v: &mut Vec<(u32, u32)>, id: u32)
    ensures
        final(v)@ == old(v)@.filter(|e: (u32, u32)| e.0 != id),
{
    let ghost s = old(v)@;
    let mut out: Vec<(u32, u32)> = Vec::new();
    let mut i: usize = 0;
    while i < v.len()
        invariant
            v@ == s,
            i <= s.len(),
            out@ == s.take(i as int).filter(|e: (u32, u32)| e.0 != id),
        decreases s.len() - i,
    {
        let e = v[i];
        proof {
            assert(s.take(i + 1) == s.take(i as int).push(e));
            s.take(i as int).lemma_filter_push(e, |e: (u32, u32)| e.0 != id);
        }
        if e.0 != id {
            out.push(e);
        }
        i = i + 1;
    }
    proof {
        assert(s.take(s.len() as int) == s);
    }
    *v = out;
}

/// Removes every buff with id `id` from a list, keeping the order of the
/// others.
fn remove_buff_entries(v: &mut Vec<Buff>, id: u32)
    ensures
        final(v)@ == old(v)@.filter(|b: Buff| b.id != id),
{
    let ghost s = old(v)@;
    let ghost pred = |b: Buff| b.id != id;
    let mut i: usize = 0;
    let ghost mut j: int = 0;
    while i < v.len()
        invariant
            pred == (|b: Buff| b.id != id),
            0 <= j <= s.len(),
            i == s.take(j).filter(pred).len(),
            v@ == s.take(j).filter(pred) + s.skip(j),
        decreases v@.len() - i,
    {
        proof {
            assert(s.take(j + 1) == s.take(j).push(s[j]));
            s.take(j).lemma_filter_push(s[j], pred);
            assert(v@[i as int] == s[j]);
        }
        if v[i].id == id {
            v.remove(i);
            proof {
                assert(s.take(j + 1).filter(pred) == s.take(j).filter(pred));
                assert(v@ =~= s.take(j + 1).filter(pred) + s.skip(j + 1));
                j = j + 1;
            }
        } else {
            proof {
                assert(s.take(j + 1).filter(pred) == s.take(j).filter(pred).push(s[j]));
                assert(v@ =~= s.take(j + 1).filter(pred) + s.skip(j + 1));
                j = j + 1;
            }
            i = i + 1;
        }
    }
    proof {
        assert(s.take(j) =~= s);
        assert(v@ =~= s.filter(pred));
    }
}

/// Dropping the buffs with id `id` gives the same list whether or not the
/// buff at `i`, one of them, was first replaced by `x`, another one.
proof fn lemma_filter_update_dropped(s: Seq<Buff>, i: int, x: Buff, id: u32)
    requires
        0 <= i < s.len(),
        s[i].id == id,
        x.id == id,
    ensures
        s.update(i, x).filter(|b: Buff| b.id != id) == s.filter(|b: Buff| b.id != id),
    decreases s.len(),
{
    reveal(Seq::filter);
    let u = s.update(i, x);
    if i == s.len() - 1 {
        assert(u.drop_last() =~= s.drop_last());
    } else {
        assert(u.drop_last() =~= s.drop_last().update(i, x));
        lemma_filter_update_dropped(s.drop_last(), i, x, id);
    }
}

/// No buff with id `id` is left once they are dropped.
proof fn lemma_no_buff_after_filter(s: Seq<Buff>, id: u32)
    ensures
        !has_buff_id(s.filter(|b: Buff| b.id != id), id),
{
    let f = s.filter(|b: Buff| b.id != id);
    assert forall|k: int| 0 <= k < f.len() implies #[trigger] f[k].id != id by {
        s.lemma_filter_pred(|b: Buff| b.id != id, k);
    }
}

/// Removes every buff with id `id` from a list.
pub fn remove_buffs(v: &mut Vec<Buff>, id: u32)
    ensures
        final(v)@.len() <= old(v)@.len(),
        !has_buff_id(final(v)@, id),
        forall|b: Buff| #[trigger] final(v)@.contains(b) <==> old(v)@.contains(b) && b.id != id,
{
    let mut out: Vec<Buff> = Vec::new();
    let ghost s = old(v)@;
    while v.len() > 0
        invariant
            out@.len() + v@.len() <= s.len(),
            !has_buff_id(out@, id),
            forall|b: Buff| #[trigger] s.contains(b) && b.id != id <==> (out@.contains(b) || v@.contains(b)) && b.id != id,
            forall|b: Buff| #[trigger] out@.contains(b) ==> b.id != id,
        decreases v.len(),
    {
        let ghost before = v@;
        let b = v.pop().unwrap();
        proof {
            assert(before == v@.push(b));
            assert forall|c: Buff| before.contains(c) <==> v@.contains(c) || c == b by {
                if before.contains(c) {
                    let k = choose|k: int| 0 <= k < before.len() && before[k] == c;
                    if k < v@.len() {
                        assert(v@[k] == c);
                    }
                }
                if v@.contains(c) {
                    let k = choose|k: int| 0 <= k < v@.len() && v@[k] == c;
                    assert(before[k] == c);
                }
                if c == b {
                    assert(before[before.len() - 1] == c);
                }
            }
        }
        if b.id != id {
            let ghost o = out@;
            out.push(b);
            proof {
                assert forall|c: Buff| out@.contains(c) <==> o.contains(c) || c == b by {
                    if out@.contains(c) {
                        let k = choose|k: int| 0 <= k < out@.len() && out@[k] == c;
                        if k < o.len() {
                            assert(o[k] == c);
                        }
                    }
                    if o.contains(c) {
                        let k = choose|k: int| 0 <= k < o.len() && o[k] == c;
                        assert(out@[k] == c);
                    }
                    if c == b {
                        assert(out@[o.len() as int] == c);
                    }
                }
                assert forall|j: int| 0 <= j < out@.len() implies #[trigger] out@[j].id != id by {
                    if j < o.len() {
                        assert(o[j] == out@[j]);
                        assert(o.contains(o[j]));
                    }
                }
            }
        }
    }
    *v = out;
}

impl BattleBuff {
    /// No buffs and no stacks.
    pub fn new() -> (r: BattleBuff)
        ensures
            r.buffs@ == Seq::<Buff>::empty(),
            r.passive_buffs@ == Seq::<Buff>::empty(),
            r.add_damage_buffs@ == Seq::<(u32, u32)>::empty(),
            r.sub_damage_buffs@ == Seq::<(u32, u32)>::empty(),
    {
        BattleBuff {
            buffs: Vec::new(),
            passive_buffs: Vec::new(),
            add_damage_buffs: Vec::new(),
            sub_damage_buffs: Vec::new(),
        }
    }

    /// Adds one stack of a damage-raising buff.
    pub fn add_add_damage_buffs(&mut self, buff_id: u32)
        requires
            stack_can_grow(old(self).add_damage_buffs@, buff_id),
        ensures
            stack_added(old(self).add_damage_buffs@, final(self).add_damage_buffs@, buff_id),
            final(self).sub_damage_buffs@ == old(self).sub_damage_buffs@,
            final(self).buffs@ == old(self).buffs@,
            final(self).passive_buffs@ == old(self).passive_buffs@,
    {
        add_stack(&mut self.add_damage_buffs, buff_id);
    }

    /// Adds one stack of a damage-lowering buff.
    pub fn add_sub_damage_buff(&mut self, buff_id: u32)
        requires
            stack_can_grow(old(self).sub_damage_buffs@, buff_id),
        ensures
            stack_added(old(self).sub_damage_buffs@, final(self).sub_damage_buffs@, buff_id),
            final(self).add_damage_buffs@ == old(self).add_damage_buffs@,
            final(self).buffs@ == old(self).buffs@,
            final(self).passive_buffs@ == old(self).passive_buffs@,
    {
        add_stack(&mut self.sub_damage_buffs, buff_id);
    }

    /// Puts a buff on the list, taking the place of the first buff with the
    /// same id where there is one.
    pub fn add_buff_for_buffs(&mut self, buff: Buff)
        ensures
            has_buff_id(old(self).buffs@, buff.id) ==> exists|i: int|
                first_buff_with_id(old(self).buffs@, buff.id, i)
                && final(self).buffs@ == old(self).buffs@.update(i, buff),
            !has_buff_id(old(self).buffs@, buff.id) ==> final(self).buffs@ == old(self).buffs@.push(buff),
            final(self).passive_buffs@ == old(self).passive_buffs@,
            final(self).add_damage_buffs@ == old(self).add_damage_buffs@,
            final(self).sub_damage_buffs@ == old(self).sub_damage_buffs@,
    {
        match buff_position(&self.buffs, buff.id) {
            Some(i) => {
                self.buffs.set(i, buff);
            },
            None => {
                self.buffs.push(buff);
            },
        }
    }

    /// Loads a passive buff: it goes on both lists, and a damage-lowering
    /// buff gets one stack.
    pub fn init(&mut self, buff: Buff, passive_copy: Buff)
        requires
            passive_copy.id == buff.id,
            stack_can_grow(old(self).sub_damage_buffs@, buff.id),
        ensures
            has_buff_id(final(self).buffs@, buff.id),
            has_buff_id(final(self).passive_buffs@, buff.id),
            (SUB_ATTACK_DAMAGE@.contains(buff.function_id)
                || buff.function_id == ATTACKED_SUB_DAMAGE
                || buff.function_id == NEAR_ATTACKED_DAMAGE_ZERO)
                ==> stack_added(old(self).sub_damage_buffs@, final(self).sub_damage_buffs@, buff.id),
            !(SUB_ATTACK_DAMAGE@.contains(buff.function_id)
                || buff.function_id == ATTACKED_SUB_DAMAGE
                || buff.function_id == NEAR_ATTACKED_DAMAGE_ZERO)
                ==> final(self).sub_damage_buffs@ == old(self).sub_damage_buffs@,
            final(self).add_damage_buffs@ == old(self).add_damage_buffs@,
    {
        let buff_id = buff.id;
        let fid = buff.function_id;
        self.add_buff_for_buffs(buff);
        proof {
            if has_buff_id(old(self).buffs@, buff_id) {
                let i = choose|i: int| first_buff_with_id(old(self).buffs@, buff_id, i)
                    && self.buffs@ == old(self).buffs@.update(i, buff);
                assert(self.buffs@[i].id == buff_id);
            } else {
                assert(self.buffs@[self.buffs@.len() - 1].id == buff_id);
            }
        }
        match buff_position(&self.passive_buffs, passive_copy.id) {
            Some(i) => {
                self.passive_buffs.set(i, passive_copy);
                assert(self.passive_buffs@[i as int].id == buff_id);
            },
            None => {
                self.passive_buffs.push(passive_copy);
                assert(self.passive_buffs@[self.passive_buffs@.len() - 1].id == buff_id);
            },
        }
        if contains_u32(&SUB_ATTACK_DAMAGE, fid) || fid == ATTACKED_SUB_DAMAGE
            || fid == NEAR_ATTACKED_DAMAGE_ZERO {
            self.add_sub_damage_buff(buff_id);
        }
    }

    /// The stack list of damage-lowering buffs.
    pub fn sub_damage_buffs(&self) -> (r: &Vec<(u32, u32)>)
        ensures
            r@ == self.sub_damage_buffs@,
    {
        &self.sub_damage_buffs
    }

    /// The buffs on the character.
    pub fn buffs(&self) -> (r: &Vec<Buff>)
        ensures
            r@ == self.buffs@,
    {
        &self.buffs
    }

    /// The buffs on the character, to be changed in place.
    pub fn buffs_mut(&mut self) -> (r: &mut Vec<Buff>)
        ensures
            *r == old(self).buffs,
            *final(self) == (BattleBuff { buffs: *final(r), ..*old(self) }),
    {
        &mut self.buffs
    }

    /// The first buff with id `buff_id`, to be changed in place.
    pub fn get_buff_mut(&mut self, buff_id: u32) -> (r: Option<&mut Buff>)
        ensures
            r is None <==> !has_buff_id(old(self).buffs@, buff_id),
            r is None ==> *final(self) == *old(self),
            r matches Some(b) ==> exists|i: int| #[trigger] first_buff_with_id(old(self).buffs@, buff_id, i)
                && *b == old(self).buffs@[i]
                && final(self).buffs@ == old(self).buffs@.update(i, *final(b))
                && *final(self) == (BattleBuff { buffs: final(self).buffs, ..*old(self) }),
    {
        match buff_position(&self.buffs, buff_id) {
            Some(i) => Some(&mut self.buffs[i]),
            None => None,
        }
    }

    /// The first buff with id `buff_id`.
    pub fn get_buff(&self, buff_id: u32) -> (r: Option<&Buff>)
        ensures
            r is None <==> !has_buff_id(self.buffs@, buff_id),
            r matches Some(b) ==> exists|i: int|
                first_buff_with_id(self.buffs@, buff_id, i) && *b == #[trigger] self.buffs@[i],
    {
        match buff_position(&self.buffs, buff_id) {
            Some(i) => Some(&self.buffs[i]),
            None => None,
        }
    }

    /// Position of the first buff that blocks attack damage.
    pub fn get_gd_buff(&self) -> (r: Option<usize>)
        ensures
            r is None <==> !(exists|i: int| 0 <= i < self.buffs@.len()
                && #[trigger] self.buffs@[i].function_id == GD_ATTACK_DAMAGE[0]),
            r matches Some(i) ==> i < self.buffs@.len()
                && self.buffs@[i as int].function_id == GD_ATTACK_DAMAGE[0]
                && forall|j: int| 0 <= j < i ==> #[trigger] self.buffs@[j].function_id != GD_ATTACK_DAMAGE[0],
    {
        let mut i: usize = 0;
        while i < self.buffs.len()
            invariant
                i <= self.buffs@.len(),
                forall|j: int| 0 <= j < i ==> #[trigger] self.buffs@[j].function_id != GD_ATTACK_DAMAGE[0],
            decreases self.buffs.len() - i,
        {
            if self.buffs[i].function_id == GD_ATTACK_DAMAGE[0] {
                return Some(i);
            }
            i = i + 1;
        }
        None
    }
}

/// Whether `x` occurs in `arr`.
pub fn contains_u32(arr: &[u32], x: u32) -> (r: bool)
    ensures
        r == arr@.contains(x),
{
    let mut i: usize = 0;
    while i < arr.len()
        invariant
            i <= arr@.len(),
            forall|j: int| 0 <= j < i ==> arr@[j] != x,
        decreases arr.len() - i,
    {
        if arr[i] == x {
            proof {
                assert(arr@[i as int] == x);
            }
            return true;
        }
        i = i + 1;
    }
    false
}

/// Where a character's stance came from: the character and the kind of source.
pub struct Owner {
    pub from_cter_id: u32,
    pub from_type: u8,
}

/// A character in a battle.
pub struct BattleCharacter {
    pub base_attr: BaseAttr,
    pub battle_buffs: BattleBuff,
    pub index_data: IndexData,
    pub state: BattleCterState,
    /// the player to take revenge on
    pub revenge_user_id: u32,
    pub skills: Vec<Skill>,
    pub items: Vec<Item>,
    /// the form this character transformed itself into
    pub self_transform_cter: Option<Box<BattleCharacter>>,
    /// the character's own form before any transformation
    pub self_cter: Option<Box<BattleCharacter>>,
    /// the character that summoned this one
    pub owner: Option<Owner>,
    /// ids of the character's minions
    pub minons: Vec<u32>,
    pub is_major: bool,
}

/// The per-stack damage bonus of buff `id`: its second parameter for the
/// buff with id 1001, its first otherwise, cut to a byte; 0 where the
/// character carries no buff with that id.
pub open spec fn stack_bonus(buffs: Seq<Buff>, id: u32) -> int {
    if has_buff_id(buffs, id) {
        let i = choose|i: int| first_buff_with_id(buffs, id, i);
        if id == 1001 {
            (buffs[i].buff_temp.par2 as u8) as int
        } else {
            (buffs[i].buff_temp.par1 as u8) as int
        }
    } else {
        0
    }
}

/// The damage that a stack list adds to the attack.
pub open spec fn damage_bonus(stacks: Seq<(u32, u32)>, buffs: Seq<Buff>) -> int
    decreases stacks.len(),
{
    if stacks.len() == 0 {
        0
    } else {
        damage_bonus(stacks.drop_last(), buffs) + stacks.last().1 * stack_bonus(buffs, stacks.last().0)
    }
}

proof fn lemma_damage_bonus_nonneg(stacks: Seq<(u32, u32)>, buffs: Seq<Buff>)
    ensures
        damage_bonus(stacks, buffs) >= 0,
    decreases stacks.len(),
{
    if stacks.len() > 0 {
        lemma_damage_bonus_nonneg(stacks.drop_last(), buffs);
        assert(stacks.last().1 * stack_bonus(buffs, stacks.last().0) >= 0) by (nonlinear_arith)
            requires stacks.last().1 >= 0, stack_bonus(buffs, stacks.last().0) >= 0;
    }
}

proof fn lemma_damage_bonus_prefix(stacks: Seq<(u32, u32)>, buffs: Seq<Buff>, k: int)
    requires
        0 <= k <= stacks.len(),
    ensures
        damage_bonus(stacks.take(k), buffs) <= damage_bonus(stacks, buffs),
    decreases stacks.len() - k,
{
    if k < stacks.len() {
        lemma_damage_bonus_prefix(stacks, buffs, k + 1);
        let t = stacks.take(k + 1);
        assert(t.drop_last() == stacks.take(k));
        assert(t.last().1 * stack_bonus(buffs, t.last().0) >= 0) by (nonlinear_arith)
            requires t.last().1 >= 0, stack_bonus(buffs, t.last().0) >= 0;
    } else {
        assert(stacks.take(k) == stacks);
    }
}

/// The energy after `value` is added: at least 0, at most the maximum.
pub open spec fn energy_after(energy: u8, max_energy: u8, value: i8) -> int {
    let res = energy + value;
    if res < 0 {
        0
    } else if res < max_energy {
        res
    } else {
        max_energy as int
    }
}

/// The amount by which `sub_skill_cd` moves each cooldown: the value made
/// negative, or -1 where there is none.
pub open spec fn cd_step(value: Option<i8>) -> int {
    match value {
        Some(v) => if v < 0 { v as int } else { -v },
        None => -1,
    }
}

impl BattleCharacter {
    pub fn get_cter_temp_id(&self) -> (r: u32)
        ensures
            r == self.base_attr.cter_temp_id,
    {
        self.base_attr.cter_temp_id
    }

    pub fn get_cter_id(&self) -> (r: u32)
        ensures
            r == self.base_attr.cter_id,
    {
        self.base_attr.cter_id
    }

    pub fn get_user_id(&self) -> (r: u32)
        ensures
            r == self.base_attr.user_id,
    {
        self.base_attr.user_id
    }

    pub fn is_died(&self) -> (r: bool)
        ensures
            r == (self.state == BattleCterState::Died),
    {
        self.state == BattleCterState::Died
    }

    /// Adds `hp` (which may be negative); a character whose hp falls to 0 or
    /// below dies. Returns whether the character is dead afterwards.
    pub fn add_hp(&mut self, hp: i16) -> (r: bool)
        requires
            i16::MIN <= old(self).base_attr.hp + hp <= i16::MAX,
        ensures
            final(self).base_attr == (BaseAttr { hp: (old(self).base_attr.hp + hp) as i16, ..old(self).base_attr }),
            final(self).state == (if old(self).base_attr.hp + hp <= 0 { BattleCterState::Died } else { old(self).state }),
            *final(self) == healed_cter(*old(self), hp),
            r == (final(self).state == BattleCterState::Died),
            final(self).index_data == old(self).index_data,
            final(self).skills@ == old(self).skills@,
            final(self).battle_buffs.buffs@ == old(self).battle_buffs.buffs@,
    {
        self.base_attr.hp = self.base_attr.hp + hp;
        if self.base_attr.hp <= 0 {
            self.state = BattleCterState::Died;
        }
        self.state == BattleCterState::Died
    }

    /// Whether the character carries a buff whose id raises attack and makes it an area attack.
    pub fn is_has_add_attack_and_aoe(&self) -> (r: bool)
        ensures
            r == exists|i: int| 0 <= i < self.battle_buffs.buffs@.len()
                && ADD_ATTACK_AND_AOE@.contains(#[trigger] self.battle_buffs.buffs@[i].id),
    {
        let mut i: usize = 0;
        while i < self.battle_buffs.buffs.len()
            invariant
                i <= self.battle_buffs.buffs@.len(),
                forall|j: int| 0 <= j < i ==> !ADD_ATTACK_AND_AOE@.contains(#[trigger] self.battle_buffs.buffs@[j].id),
            decreases self.battle_buffs.buffs.len() - i,
        {
            if contains_u32(&ADD_ATTACK_AND_AOE, self.battle_buffs.buffs[i].id) {
                return true;
            }
            i = i + 1;
        }
        false
    }

    /// Whether the character may be moved: no buff forbids it.
    pub fn can_be_move(&self) -> (r: bool)
        ensures
            r == forall|i: int| 0 <= i < self.battle_buffs.buffs@.len()
                ==> #[trigger] self.battle_buffs.buffs@[i].function_id != CAN_NOT_MOVED,
    {
        let mut i: usize = 0;
        while i < self.battle_buffs.buffs.len()
            invariant
                i <= self.battle_buffs.buffs@.len(),
                forall|j: int| 0 <= j < i ==> #[trigger] self.battle_buffs.buffs@[j].function_id != CAN_NOT_MOVED,
            decreases self.battle_buffs.buffs.len() - i,
        {
            if self.battle_buffs.buffs[i].function_id == CAN_NOT_MOVED {
                return false;
            }
            i = i + 1;
        }
        true
    }

    /// Clears the cooldown of every inactive skill.
    pub fn clean_skill_cd(&mut self)
        ensures
            final(self).skills@.len() == old(self).skills@.len(),
            forall|i: int| 0 <= i < old(self).skills@.len() ==> {
                let (o, n) = (old(self).skills@[i], #[trigger] final(self).skills@[i]);
                if o.is_active { n == o } else { n == (Skill { cd_times: 0, ..o }) }
            },
            final(self).base_attr == old(self).base_attr,
            final(self).state == old(self).state,
    {
        let ghost s = old(self).skills@;
        let mut i: usize = 0;
        while i < self.skills.len()
            invariant
                self.skills@.len() == s.len(),
                i <= s.len(),
                forall|j: int| i <= j < s.len() ==> #[trigger] self.skills@[j] == s[j],
                forall|j: int| 0 <= j < i ==> {
                    let (o, n) = (s[j], #[trigger] self.skills@[j]);
                    if o.is_active { n == o } else { n == (Skill { cd_times: 0, ..o }) }
                },
                self.base_attr == old(self).base_attr,
                self.state == old(self).state,
                *self == (BattleCharacter { skills: self.skills, ..*old(self) }),
            decreases s.len() - i,
        {
            if !self.skills[i].is_active {
                self.skills[i].clean_cd();
            }
            i = i + 1;
        }
    }

    /// Moves the cooldown of every inactive skill down by `value` (taken as
    /// negative), or by 1 where there is no value.
    pub fn sub_skill_cd(&mut self, value: Option<i8>)
        requires
            forall|i: int| 0 <= i < old(self).skills@.len() && !old(self).skills@[i].is_active
                ==> #[trigger] old(self).skills@[i].cd_times + cd_step(value) >= i8::MIN,
        ensures
            final(self).skills@.len() == old(self).skills@.len(),
            forall|i: int| 0 <= i < old(self).skills@.len() ==> {
                let (o, n) = (old(self).skills@[i], #[trigger] final(self).skills@[i]);
                if o.is_active {
                    n == o
                } else {
                    n == (Skill { cd_times: clamped_cd(o.cd_times, cd_step(value) as i8, o.skill_temp.cd) as i8, ..o })
                }
            },
            final(self).base_attr == old(self).base_attr,
            final(self).state == old(self).state,
            *final(self) == (BattleCharacter { skills: final(self).skills, ..*old(self) }),
    {
        let res: i8 = match value {
            Some(v) => if v < 0 { v } else { -v },
            None => -1,
        };
        let ghost s = old(self).skills@;
        let mut i: usize = 0;
        while i < self.skills.len()
            invariant
                self.skills@.len() == s.len(),
                i <= s.len(),
                res == cd_step(value),
                res <= 0,
                forall|j: int| 0 <= j < s.len() && !s[j].is_active ==> #[trigger] s[j].cd_times + cd_step(value) >= i8::MIN,
                forall|j: int| i <= j < s.len() ==> #[trigger] self.skills@[j] == s[j],
                forall|j: int| 0 <= j < i ==> {
                    let (o, n) = (s[j], #[trigger] self.skills@[j]);
                    if o.is_active {
                        n == o
                    } else {
                        n == (Skill { cd_times: clamped_cd(o.cd_times, res, o.skill_temp.cd) as i8, ..o })
                    }
                },
                self.base_attr == old(self).base_attr,
                self.state == old(self).state,
                *self == (BattleCharacter { skills: self.skills, ..*old(self) }),
            decreases s.len() - i,
        {
            if !self.skills[i].is_active {
                assert(s[i as int].cd_times + res >= i8::MIN);
                self.skills[i].add_cd(res);
            }
            i = i + 1;
        }
    }

    /// Adds `value` (which may be negative) to the energy, held between 0
    /// and the maximum.
    pub fn add_energy(&mut self, value: i8)
        requires
            old(self).base_attr.energy <= 127,
            old(self).base_attr.max_energy <= 127,
            i8::MIN <= old(self).base_attr.energy + value <= i8::MAX,
        ensures
            final(self).base_attr == (BaseAttr {
                energy: energy_after(old(self).base_attr.energy, old(self).base_attr.max_energy, value) as u8,
                ..old(self).base_attr
            }),
            final(self).state == old(self).state,
            final(self).skills@ == old(self).skills@,
            *final(self) == (BattleCharacter { base_attr: final(self).base_attr, ..*old(self) }),
    {
        let v = self.base_attr.energy as i8;
        let max = self.base_attr.max_energy as i8;
        let res = v + value;
        if res < 0 {
            self.base_attr.energy = 0;
        } else {
            let result = if res < max { res } else { max };
            self.base_attr.energy = result as u8;
        }
    }

    /// Whether the character stands on a cell.
    pub fn map_cell_index_is_choiced(&self) -> (r: bool)
        ensures
            r == self.index_data.map_cell_index is Some,
    {
        self.index_data.map_cell_index.is_some()
    }

    /// Puts the character on cell `index`.
    pub fn set_map_cell_index(&mut self, index: usize)
        ensures
            final(self).index_data == (IndexData { map_cell_index: Some(index), ..old(self).index_data }),
            final(self).base_attr == old(self).base_attr,
            final(self).state == old(self).state,
    {
        self.index_data.map_cell_index = Some(index);
    }

    /// The cell the character stands on; 100 where it stands on none.
    pub fn get_map_cell_index(&self) -> (r: usize)
        ensures
            r == match self.index_data.map_cell_index {
                Some(i) => i,
                None => 100,
            },
    {
        match self.index_data.map_cell_index {
            Some(i) => i,
            None => 100,
        }
    }

    /// Moves the character to cell `index`, remembering the cell it came from.
    pub fn move_index(&mut self, index: usize)
        requires
            old(self).index_data.map_cell_index is Some,
        ensures
            final(self).index_data == (IndexData {
                last_map_cell_index: old(self).index_data.map_cell_index,
                map_cell_index: Some(index),
            }),
            final(self).base_attr == old(self).base_attr,
            final(self).state == old(self).state,
    {
        let cur = self.index_data.map_cell_index.unwrap();
        self.index_data.last_map_cell_index = Some(cur);
        self.index_data.map_cell_index = Some(index);
    }

    /// Gives the character an item that triggers `skill_temp`, unless it
    /// carries as many items as it may.
    pub fn add_item(&mut self, item_id: u32, skill_temp: SkillTemp) -> (r: Result<(), ()>)
        ensures
            r is Err <==> (old(self).items@.len() as u8) >= old(self).base_attr.item_max,
            r is Err ==> final(self).items@ == old(self).items@,
            r is Ok ==> {
                let item = Item { id: item_id, skill_temp };
                ||| exists|i: int| 0 <= i < old(self).items@.len() && old(self).items@[i].id == item_id
                    && (forall|j: int| 0 <= j < i ==> #[trigger] old(self).items@[j].id != item_id)
                    && final(self).items@ == old(self).items@.update(i, item)
                ||| (forall|j: int| 0 <= j < old(self).items@.len() ==> #[trigger] old(self).items@[j].id != item_id)
                    && final(self).items@ == old(self).items@.push(item)
            },
            final(self).base_attr == old(self).base_attr,
    {
        let item = Item { id: item_id, skill_temp };
        if self.items.len() as u8 >= self.base_attr.item_max {
            return Err(());
        }
        let mut i: usize = 0;
        while i < self.items.len()
            invariant
                i <= self.items@.len(),
                self.items@ == old(self).items@,
                self.base_attr == old(self).base_attr,
                !((old(self).items@.len() as u8) >= old(self).base_attr.item_max),
                item == (Item { id: item_id, skill_temp }),
                forall|j: int| 0 <= j < i ==> #[trigger] self.items@[j].id != item_id,
            decreases self.items.len() - i,
        {
            if self.items[i].id == item_id {
                self.items.set(i, item);
                return Ok(());
            }
            i = i + 1;
        }
        self.items.push(item);
        Ok(())
    }

    /// Uses up part of buff `buff_id`: a turn of its duration at the start of
    /// a turn, one of its triggers otherwise (see `consumed_buff`). Where the
    /// buff is then spent (see `consume_removes`) it is removed, with its
    /// stacks, and its id is returned; else the result is `None` (see
    /// `consumed_at`). Nothing happens where the character carries no such
    /// buff.
    pub fn consume_buff(&mut self, buff_id: u32, is_turn_start: bool) -> (r: Option<u32>)
        requires
            forall|i: int| 0 <= i < old(self).battle_buffs.buffs@.len()
                ==> #[trigger] old(self).battle_buffs.buffs@[i].trigger_timesed > i8::MIN
                && old(self).battle_buffs.buffs@[i].keep_times > i8::MIN,
        ensures
            !has_buff_id(old(self).battle_buffs.buffs@, buff_id) ==> r is None && *final(self) == *old(self),
            forall|i: int| #[trigger] first_buff_with_id(old(self).battle_buffs.buffs@, buff_id, i)
                ==> consumed_at(old(self).battle_buffs, final(self).battle_buffs, i, is_turn_start, r),
            r is Some <==> (has_buff_id(old(self).battle_buffs.buffs@, buff_id)
                && !has_buff_id(final(self).battle_buffs.buffs@, buff_id)),
            r is Some ==> r == Some(buff_id),
            *final(self) == (BattleCharacter { battle_buffs: final(self).battle_buffs, ..*old(self) }),
    {
        match buff_position(&self.battle_buffs.buffs, buff_id) {
            Some(i) => {
                let ghost bb0 = self.battle_buffs;
                proof {
                    assert(bb0.buffs@[i as int].trigger_timesed > i8::MIN);
                    assert forall|k: int| #[trigger] first_buff_with_id(bb0.buffs@, buff_id, k)
                        implies k == i as int by {
                        if k < i {
                            assert(bb0.buffs@[k].id != buff_id);
                        } else if k > i {
                            assert(bb0.buffs@[i as int].id != buff_id);
                        }
                    }
                }
                if is_turn_start {
                    self.battle_buffs.buffs[i].sub_keep_times();
                } else {
                    self.battle_buffs.buffs[i].sub_trigger_timesed();
                }
                proof {
                    assert(self.battle_buffs.buffs@ =~= bb0.buffs@.update(i as int,
                        consumed_buff(bb0.buffs@[i as int], is_turn_start)));
                }
                let b = &self.battle_buffs.buffs[i];
                let cfg_keep_time = b.buff_temp.keep_time;
                let cfg_trigger_time = b.buff_temp.trigger_times;
                let spent = if cfg_keep_time == 0 && b.trigger_timesed <= 0 {
                    true
                } else if cfg_trigger_time == 0 && b.keep_times <= 0 {
                    true
                } else {
                    cfg_trigger_time > 0 && cfg_keep_time > 0 && (b.keep_times == 0 || b.trigger_timesed == 0)
                };
                if !b.permanent && spent {
                    remove_buff_entries(&mut self.battle_buffs.buffs, buff_id);
                    remove_stacks(&mut self.battle_buffs.add_damage_buffs, buff_id);
                    remove_stacks(&mut self.battle_buffs.sub_damage_buffs, buff_id);
                    proof {
                        lemma_filter_update_dropped(bb0.buffs@, i as int,
                            consumed_buff(bb0.buffs@[i as int], is_turn_start), buff_id);
                        lemma_no_buff_after_filter(bb0.buffs@, buff_id);
                        assert(bb0.buffs@[i as int].id == buff_id);
                    }
                    Some(buff_id)
                } else {
                    proof {
                        assert(self.battle_buffs.buffs@[i as int].id == buff_id);
                    }
                    None
                }
            },
            None => None,
        }
    }

    /// The attack: the base attack plus the bonus of every damage-raising
    /// stack whose buff the character still carries.
    pub fn calc_damage(&self) -> (r: i16)
        requires
            self.base_attr.atk + damage_bonus(self.battle_buffs.add_damage_buffs@, self.battle_buffs.buffs@) <= u8::MAX,
        ensures
            r == self.base_attr.atk + damage_bonus(self.battle_buffs.add_damage_buffs@, self.battle_buffs.buffs@),
    {
        let ghost stacks = self.battle_buffs.add_damage_buffs@;
        let ghost buffs = self.battle_buffs.buffs@;
        let mut damage: u8 = self.base_attr.atk;
        let mut k: usize = 0;
        while k < self.battle_buffs.add_damage_buffs.len()
            invariant
                stacks == self.battle_buffs.add_damage_buffs@,
                buffs == self.battle_buffs.buffs@,
                k <= stacks.len(),
                damage == self.base_attr.atk + damage_bonus(stacks.take(k as int), buffs),
                self.base_attr.atk + damage_bonus(stacks, buffs) <= u8::MAX,
            decreases stacks.len() - k,
        {
            let (buff_id, times) = self.battle_buffs.add_damage_buffs[k];
            let ghost before = damage;
            proof {
                lemma_damage_bonus_prefix(stacks, buffs, k + 1);
                let t = stacks.take(k + 1);
                assert(t.drop_last() == stacks.take(k as int));
                assert(t.last() == (buff_id, times));
            }
            match buff_position(&self.battle_buffs.buffs, buff_id) {
                None => {
                    assert(stack_bonus(buffs, buff_id) == 0);
                    assert(times * stack_bonus(buffs, buff_id) == 0);
                },
                Some(p) => {
                    let per: u8 = if buff_id == 1001 {
                        self.battle_buffs.buffs[p].buff_temp.par2 as u8
                    } else {
                        self.battle_buffs.buffs[p].buff_temp.par1 as u8
                    };
                    proof {
                        let c = choose|i: int| first_buff_with_id(buffs, buff_id, i);
                        assert(first_buff_with_id(buffs, buff_id, p as int));
                        if c < p {
                            assert(buffs[c].id != buff_id);
                        } else if c > p {
                            assert(buffs[p as int].id != buff_id);
                        }
                        assert(per == stack_bonus(buffs, buff_id));
                    }
                    let ghost start = damage;
                    let mut n: u32 = 0;
                    while n < times
                        invariant
                            n <= times,
                            damage == start + n * per,
                            start + times * per <= u8::MAX,
                        decreases times - n,
                    {
                        proof {
                            assert(start + (n + 1) * per <= start + times * per) by (nonlinear_arith)
                                requires n + 1 <= times, per >= 0;
                            assert((n + 1) * per == n * per + per) by (nonlinear_arith);
                        }
                        damage = damage + per;
                        n = n + 1;
                    }
                    assert(damage == before + times * stack_bonus(buffs, buff_id));
                },
            }
            proof {
                let t = stacks.take(k + 1);
                assert(damage_bonus(t, buffs) == damage_bonus(t.drop_last(), buffs) + t.last().1 * stack_bonus(buffs, t.last().0));
            }
            k = k + 1;
        }
        proof {
            assert(stacks.take(stacks.len() as int) == stacks);
        }
        damage as i16
    }

    /// Adds a buff from its configuration: a damage-raising or damage-lowering
    /// buff gets one more stack (except the buff with id 0), and the buff goes
    /// on the character unless it carries one with that id already.
    pub fn add_buff(
        &mut self,
        from_cter: Option<u32>,
        from_skill: Option<u32>,
        buff_temp: BuffTemp,
        scope: Vec<Direction>,
        turn_index: Option<usize>,
    )
        requires
            stack_can_grow(old(self).battle_buffs.add_damage_buffs@, buff_temp.id),
            stack_can_grow(old(self).battle_buffs.sub_damage_buffs@, buff_temp.id),
        ensures
            cter_buff_added(*old(self), *final(self), from_cter, from_skill, buff_temp, scope@, turn_index),
    {
        let buff_id = buff_temp.id;
        let fid = buff_temp.function_id;
        if contains_u32(&ADD_ATTACK, fid) && buff_id != 0 {
            self.battle_buffs.add_add_damage_buffs(buff_id);
        }
        if contains_u32(&SUB_ATTACK_DAMAGE, fid) && buff_id != 0 {
            self.battle_buffs.add_sub_damage_buff(buff_id);
        }
        let ghost mid = self.battle_buffs.buffs@;
        if buff_position(&self.battle_buffs.buffs, buff_id).is_none() {
            let ghost sc = scope@;
            let buff = Buff::new(buff_temp, scope, turn_index, from_cter, from_skill);
            self.battle_buffs.buffs.push(buff);
            proof {
                assert(self.battle_buffs.buffs@.drop_last() =~= mid);
                assert(new_buff(self.battle_buffs.buffs@.last(), buff_temp, sc, turn_index, from_cter, from_skill));
            }
        }
    }

    /// Removes buff `buff_id` and its stacks.
    pub fn remove_buff(&mut self, buff_id: u32)
        ensures
            !has_buff_id(final(self).battle_buffs.buffs@, buff_id),
            forall|b: Buff| #[trigger] final(self).battle_buffs.buffs@.contains(b)
                <==> old(self).battle_buffs.buffs@.contains(b) && b.id != buff_id,
            final(self).battle_buffs.add_damage_buffs@
                == old(self).battle_buffs.add_damage_buffs@.filter(|e: (u32, u32)| e.0 != buff_id),
            final(self).battle_buffs.sub_damage_buffs@
                == old(self).battle_buffs.sub_damage_buffs@.filter(|e: (u32, u32)| e.0 != buff_id),
            final(self).base_attr == old(self).base_attr,
            final(self).state == old(self).state,
    {
        remove_buffs(&mut self.battle_buffs.buffs, buff_id);
        remove_stacks(&mut self.battle_buffs.add_damage_buffs, buff_id);
        remove_stacks(&mut self.battle_buffs.sub_damage_buffs, buff_id);
    }

    /// Removes the damage-raising stacks of buff `buff_id`.
    pub fn remove_damage_buff(&mut self, buff_id: u32)
        ensures
            final(self).battle_buffs.add_damage_buffs@
                == old(self).battle_buffs.add_damage_buffs@.filter(|e: (u32, u32)| e.0 != buff_id),
            final(self).battle_buffs.buffs@ == old(self).battle_buffs.buffs@,
            final(self).battle_buffs.sub_damage_buffs@ == old(self).battle_buffs.sub_damage_buffs@,
            final(self).base_attr == old(self).base_attr,
    {
        remove_stacks(&mut self.battle_buffs.add_damage_buffs, buff_id);
    }

}

/// `c1` is character `c0` after it was given a buff of configuration
/// `temp` (see `BattleCharacter::add_buff`): a damage-raising or
/// damage-lowering buff gets one more stack (except the buff with id 0),
/// and a new buff (see `new_buff`) goes last unless the character carries
/// one with that id already. Nothing else changes.
pub open spec fn cter_buff_added(c0: BattleCharacter, c1: BattleCharacter, from_cter: Option<u32>, from_skill: Option<u32>,
    temp: BuffTemp, scope: Seq<Direction>, turn_index: Option<usize>) -> bool {
    let b0 = c0.battle_buffs;
    let b1 = c1.battle_buffs;
    &&& c1 == (BattleCharacter { battle_buffs: b1, ..c0 })
    &&& b1.passive_buffs@ == b0.passive_buffs@
    &&& if ADD_ATTACK@.contains(temp.function_id) && temp.id != 0 {
        stack_added(b0.add_damage_buffs@, b1.add_damage_buffs@, temp.id)
    } else {
        b1.add_damage_buffs@ == b0.add_damage_buffs@
    }
    &&& if SUB_ATTACK_DAMAGE@.contains(temp.function_id) && temp.id != 0 {
        stack_added(b0.sub_damage_buffs@, b1.sub_damage_buffs@, temp.id)
    } else {
        b1.sub_damage_buffs@ == b0.sub_damage_buffs@
    }
    &&& has_buff_id(b0.buffs@, temp.id) ==> b1.buffs@ == b0.buffs@
    &&& !has_buff_id(b0.buffs@, temp.id) ==> {
        &&& b1.buffs@.len() == b0.buffs@.len() + 1
        &&& b1.buffs@.drop_last() == b0.buffs@
        &&& new_buff(b1.buffs@.last(), temp, scope, turn_index, from_cter, from_skill)
        &&& b1.buffs@.last().trap_view_users@ == Seq::<u32>::empty()
    }
}

/// Buff `o` after it was used once: one turn of its duration passes at the
/// start of a turn, else one of its triggers is used.
pub open spec fn consumed_buff(o: Buff, is_turn_start: bool) -> Buff {
    if is_turn_start {
        Buff { keep_times: after_turn(o.buff_temp.keep_time, o.keep_times) as i8, ..o }
    } else {
        Buff { trigger_timesed: after_trigger(o.trigger_timesed) as i8, ..o }
    }
}

/// Whether using buff `o` once spends it (see `buff_spent`); a permanent
/// buff is never spent.
pub open spec fn consume_removes(o: Buff, is_turn_start: bool) -> bool {
    let n = consumed_buff(o, is_turn_start);
    !o.permanent && buff_spent(o.buff_temp.keep_time, o.buff_temp.trigger_times, n.keep_times as int,
        n.trigger_timesed as int)
}

/// The buffs `b1` after the buff at `i` of `b0` was used once, and the
/// result `r` of that: a spent buff leaves, with its stacks, and its id is
/// the result; any other stays, used, and the result is `None`.
pub open spec fn consumed_at(b0: BattleBuff, b1: BattleBuff, i: int, is_turn_start: bool, r: Option<u32>) -> bool {
    let o = b0.buffs@[i];
    if consume_removes(o, is_turn_start) {
        &&& r == Some(o.id)
        &&& b1.buffs@ == b0.buffs@.filter(|b: Buff| b.id != o.id)
        &&& b1.add_damage_buffs@ == b0.add_damage_buffs@.filter(|e: (u32, u32)| e.0 != o.id)
        &&& b1.sub_damage_buffs@ == b0.sub_damage_buffs@.filter(|e: (u32, u32)| e.0 != o.id)
        &&& b1.passive_buffs == b0.passive_buffs
    } else {
        &&& r is None
        &&& b1 == (BattleBuff { buffs: b1.buffs, ..b0 })
        &&& b1.buffs@ == b0.buffs@.update(i, consumed_buff(o, is_turn_start))
    }
}

/// `g` is the position of the first buff of `bs` that blocks attack damage.
pub open spec fn first_gd(bs: Seq<Buff>, g: int) -> bool {
    &&& 0 <= g < bs.len()
    &&& bs[g].function_id == GD_ATTACK_DAMAGE[0]
    &&& forall|j: int| 0 <= j < g ==> #[trigger] bs[j].function_id != GD_ATTACK_DAMAGE[0]
}

impl BattleCharacter {
    /// Blocks one attack with the first blocking buff, using one of its
    /// triggers (see `consume_buff`). Returns the buff's id (0 where there is
    /// none) and whether it is done: removed as spent, or left with no
    /// triggers or no turns.
    pub fn trigger_attack_damge_gd(&mut self) -> (r: (u32, bool))
        requires
            forall|i: int| 0 <= i < old(self).battle_buffs.buffs@.len()
                ==> #[trigger] old(self).battle_buffs.buffs@[i].trigger_timesed > i8::MIN
                && old(self).battle_buffs.buffs@[i].keep_times > i8::MIN,
        ensures
            (forall|i: int| 0 <= i < old(self).battle_buffs.buffs@.len()
                ==> #[trigger] old(self).battle_buffs.buffs@[i].function_id != GD_ATTACK_DAMAGE[0])
                ==> r == (0u32, false) && *final(self) == *old(self),
            forall|g: int| #[trigger] first_gd(old(self).battle_buffs.buffs@, g) ==> {
                let bs = old(self).battle_buffs.buffs@;
                let id = bs[g].id;
                exists|p: int| #[trigger] first_buff_with_id(bs, id, p) && {
                    let gone = consume_removes(bs[p], false);
                    let n = consumed_buff(bs[p], false);
                    &&& consumed_at(old(self).battle_buffs, final(self).battle_buffs, p, false,
                        if gone { Some(id) } else { None })
                    &&& r == (id, gone || n.trigger_timesed <= 0 || n.keep_times <= 0)
                }
            },
            *final(self) == (BattleCharacter { battle_buffs: final(self).battle_buffs, ..*old(self) }),
    {
        let gd = self.battle_buffs.get_gd_buff();
        let ghost bs = self.battle_buffs.buffs@;
        let ghost bb0 = self.battle_buffs;
        match gd {
            None => (0, false),
            Some(g) => {
                let buff_id = self.battle_buffs.buffs[g].id;
                proof {
                    assert(first_gd(bs, g as int));
                    assert forall|g2: int| #[trigger] first_gd(bs, g2) implies g2 == g as int by {
                        if g2 < g {
                            assert(bs[g2].function_id != GD_ATTACK_DAMAGE[0]);
                        } else if g < g2 {
                            assert(bs[g as int].function_id != GD_ATTACK_DAMAGE[0]);
                        }
                    }
                    assert(has_buff_id(bs, buff_id)) by {
                        assert(bs[g as int].id == buff_id);
                    }
                }
                let p0 = buff_position(&self.battle_buffs.buffs, buff_id);
                let p = p0.unwrap();
                let lost = self.consume_buff(buff_id, false);
                proof {
                    assert(first_buff_with_id(bs, buff_id, p as int));
                    assert(consumed_at(bb0, self.battle_buffs, p as int, false, lost));
                }
                match lost {
                    Some(_) => (buff_id, true),
                    None => {
                        let b = &self.battle_buffs.buffs[p];
                        (buff_id, b.trigger_timesed <= 0 || b.keep_times <= 0)
                    },
                }
            },
        }
    }
}

/// Takes off the character every buff that lowers the cap on movement
/// points and hands them back, so that they carry over a transformation.
pub fn transform_buff_inherit_copy(battle_cter: &mut BattleCharacter) -> (r: Vec<Buff>)
    ensures
        forall|i: int| 0 <= i < r@.len() ==> #[trigger] r@[i].function_id == SUB_MOVE_POINT,
        forall|b: Buff| #[trigger] old(battle_cter).battle_buffs.buffs@.contains(b) && b.function_id == SUB_MOVE_POINT
            ==> r@.contains(b),
        forall|b: Buff| #[trigger] final(battle_cter).battle_buffs.buffs@.contains(b)
            ==> old(battle_cter).battle_buffs.buffs@.contains(b),
        forall|i: int| 0 <= i < final(battle_cter).battle_buffs.buffs@.len()
            ==> #[trigger] final(battle_cter).battle_buffs.buffs@[i].function_id != SUB_MOVE_POINT,
        forall|b: Buff| #[trigger] old(battle_cter).battle_buffs.buffs@.contains(b) && b.function_id != SUB_MOVE_POINT
            ==> final(battle_cter).battle_buffs.buffs@.contains(b),
        final(battle_cter).base_attr == old(battle_cter).base_attr,
        final(battle_cter).state == old(battle_cter).state,
{
    let mut kept: Vec<Buff> = Vec::new();
    let mut moved: Vec<Buff> = Vec::new();
    let ghost s = old(battle_cter).battle_buffs.buffs@;
    let mut rest = Vec::new();
    std::mem::swap(&mut rest, &mut battle_cter.battle_buffs.buffs);
    while rest.len() > 0
        invariant
            forall|i: int| 0 <= i < moved@.len() ==> #[trigger] moved@[i].function_id == SUB_MOVE_POINT,
            forall|i: int| 0 <= i < kept@.len() ==> #[trigger] kept@[i].function_id != SUB_MOVE_POINT,
            forall|b: Buff| #[trigger] s.contains(b) ==> rest@.contains(b) || kept@.contains(b) || moved@.contains(b),
            forall|b: Buff| #[trigger] kept@.contains(b) ==> s.contains(b),
            forall|b: Buff| #[trigger] rest@.contains(b) ==> s.contains(b),
            battle_cter.base_attr == old(battle_cter).base_attr,
            battle_cter.state == old(battle_cter).state,
        decreases rest.len(),
    {
        let ghost before = rest@;
        let ghost ko = kept@;
        let ghost mo = moved@;
        let b = rest.pop().unwrap();
        proof {
            assert(before == rest@.push(b));
            assert forall|c: Buff| before.contains(c) implies rest@.contains(c) || c == b by {
                let k = choose|k: int| 0 <= k < before.len() && before[k] == c;
                if k < rest@.len() {
                    assert(rest@[k] == c);
                }
            }
            assert forall|c: Buff| rest@.contains(c) implies before.contains(c) by {
                let k = choose|k: int| 0 <= k < rest@.len() && rest@[k] == c;
                assert(before[k] == c);
            }
            assert(before[before.len() - 1] == b);
            assert(before.contains(b));
            assert(s.contains(b));
            assert forall|c: Buff| rest@.contains(c) implies s.contains(c) by {
                assert(before.contains(c));
            }
        }
        if b.function_id == SUB_MOVE_POINT {
            moved.push(b);
            proof {
                assert(moved@[mo.len() as int] == b);
                assert forall|c: Buff| mo.contains(c) implies moved@.contains(c) by {
                    let k = choose|k: int| 0 <= k < mo.len() && mo[k] == c;
                    assert(moved@[k] == c);
                }
            }
        } else {
            kept.push(b);
            proof {
                assert(kept@[ko.len() as int] == b);
                assert forall|c: Buff| ko.contains(c) implies kept@.contains(c) by {
                    let k = choose|k: int| 0 <= k < ko.len() && ko[k] == c;
                    assert(kept@[k] == c);
                }
                assert forall|c: Buff| kept@.contains(c) implies s.contains(c) by {
                    let k = choose|k: int| 0 <= k < kept@.len() && kept@[k] == c;
                    if k < ko.len() {
                        assert(ko[k] == c);
                        assert(ko.contains(c));
                    } else {
                        assert(c == b);
                    }
                }
            }
        }
    }
    battle_cter.battle_buffs.buffs = kept;
    proof {
        assert forall|b: Buff| #[trigger] s.contains(b) && b.function_id == SUB_MOVE_POINT implies moved@.contains(b) by {
            if kept@.contains(b) {
                let k = choose|k: int| 0 <= k < kept@.len() && kept@[k] == b;
                assert(kept@[k].function_id != SUB_MOVE_POINT);
            }
        }
    }
    moved
}

/// The attributes a transformed character may keep from its form before.
#[derive(Debug, Clone, Copy, PartialEq, Eq, Structural)]
pub enum TransformInheritType {
    Hp,
    Attack,
    MapIndex,
    Energy,
    /// any other kind, which keeps nothing
    Other,
}

impl TransformInheritType {
    /// The kind with code `v`: 1 hp, 2 attack, 3 map index, 4 energy; `Other`
    /// for any other code.
    pub fn from_code(v: u8) -> (r: TransformInheritType)
        ensures
            r == transform_inherit_type_of(v),
    {
        if v == 1 {
            TransformInheritType::Hp
        } else if v == 2 {
            TransformInheritType::Attack
        } else if v == 3 {
            TransformInheritType::MapIndex
        } else if v == 4 {
            TransformInheritType::Energy
        } else {
            TransformInheritType::Other
        }
    }
}

pub open spec fn transform_inherit_type_of(v: u8) -> TransformInheritType {
    if v == 1 {
        TransformInheritType::Hp
    } else if v == 2 {
        TransformInheritType::Attack
    } else if v == 3 {
        TransformInheritType::MapIndex
    } else if v == 4 {
        TransformInheritType::Energy
    } else {
        TransformInheritType::Other
    }
}

/// One attribute kept over a transformation, with its value.
pub struct TransformInherit(pub TransformInheritType, pub TransformInheritValue);

/// The attributes after the kept ones in `s` are taken over in order.
pub open spec fn inherit_attrs(a: BaseAttr, s: Seq<TransformInherit>) -> BaseAttr
    decreases s.len(),
{
    if s.len() == 0 {
        a
    } else {
        let prev = inherit_attrs(a, s.drop_last());
        let t = s.last();
        match (t.0, t.1) {
            (TransformInheritType::Hp, TransformInheritValue::Int(v)) => BaseAttr { hp: v as i16, ..prev },
            (TransformInheritType::Attack, TransformInheritValue::Int(v)) => BaseAttr { atk: v as u8, ..prev },
            (TransformInheritType::Energy, TransformInheritValue::Int(v)) => BaseAttr { energy: v as u8, ..prev },
            _ => prev,
        }
    }
}

/// The cell after the kept attributes in `s` are taken over in order.
pub open spec fn inherit_index(idx: Option<usize>, s: Seq<TransformInherit>) -> Option<usize>
    decreases s.len(),
{
    if s.len() == 0 {
        idx
    } else {
        let prev = inherit_index(idx, s.drop_last());
        let t = s.last();
        match (t.0, t.1) {
            (TransformInheritType::MapIndex, TransformInheritValue::Int(v)) => Some(v),
            _ => prev,
        }
    }
}

/// The value of attribute kind `t` on a character, as a transformation keeps it.
pub open spec fn inherit_value_of(c: BaseAttr, map_index: usize, t: TransformInheritType) -> TransformInheritValue {
    match t {
        TransformInheritType::Hp => TransformInheritValue::Int(c.hp as usize),
        TransformInheritType::Attack => TransformInheritValue::Int(c.atk as usize),
        TransformInheritType::Energy => TransformInheritValue::Int(c.energy as usize),
        TransformInheritType::MapIndex => TransformInheritValue::Int(map_index),
        TransformInheritType::Other => TransformInheritValue::Nothing,
    }
}

/// The attributes of `battle_cter` that a transformation into a character
/// keeping the kinds coded in `transform_inherit` carries over, one per code.
pub fn transform_att_inherit_copy(battle_cter: &BattleCharacter, transform_inherit: &Vec<u8>) -> (r: Vec<TransformInherit>)
    ensures
        r@.len() == transform_inherit@.len(),
        forall|i: int| 0 <= i < r@.len() ==> {
            let t = transform_inherit_type_of(transform_inherit@[i]);
            &&& (#[trigger] r@[i]).0 == t
            &&& r@[i].1 == inherit_value_of(battle_cter.base_attr, battle_cter.get_map_cell_index_spec(), t)
        },
{
    let mut v: Vec<TransformInherit> = Vec::new();
    let mut i: usize = 0;
    while i < transform_inherit.len()
        invariant
            i <= transform_inherit@.len(),
            v@.len() == i,
            forall|k: int| 0 <= k < i ==> {
                let t = transform_inherit_type_of(transform_inherit@[k]);
                &&& (#[trigger] v@[k]).0 == t
                &&& v@[k].1 == inherit_value_of(battle_cter.base_attr, battle_cter.get_map_cell_index_spec(), t)
            },
        decreases transform_inherit.len() - i,
    {
        let ti_type = TransformInheritType::from_code(transform_inherit[i]);
        let res = match ti_type {
            TransformInheritType::Hp => TransformInheritValue::Int(battle_cter.base_attr.hp as usize),
            TransformInheritType::Attack => TransformInheritValue::Int(battle_cter.base_attr.atk as usize),
            TransformInheritType::Energy => TransformInheritValue::Int(battle_cter.base_attr.energy as usize),
            TransformInheritType::MapIndex => TransformInheritValue::Int(battle_cter.get_map_cell_index()),
            TransformInheritType::Other => TransformInheritValue::Nothing,
        };
        v.push(TransformInherit(ti_type, res));
        i = i + 1;
    }
    v
}

/// Character `c` after gaining `hp` (which may be negative): it dies where
/// its hp falls to 0 or below.
pub open spec fn healed_cter(c: BattleCharacter, hp: i16) -> BattleCharacter {
    BattleCharacter {
        base_attr: BaseAttr { hp: (c.base_attr.hp + hp) as i16, ..c.base_attr },
        state: if c.base_attr.hp + hp <= 0 { BattleCterState::Died } else { c.state },
        ..c
    }
}

impl BattleCharacter {
    /// The cell the character stands on; 100 where it stands on none.
    pub open spec fn get_map_cell_index_spec(&self) -> usize {
        match self.index_data.map_cell_index {
            Some(i) => i,
            None => 100,
        }
    }
}

/// A cooldown moved within range, where its configured cooldown is not
/// negative, stays within `0..=cd`; an energy change stays within `0..=max`.
pub proof fn lemma_bounded_counters(cd_times: i8, value: i8, cd: i8, energy: u8, max_energy: u8, v: i8)
    requires
        cd >= 0,
    ensures
        0 <= clamped_cd(cd_times, value, cd) <= cd,
        0 <= energy_after(energy, max_energy, v) <= max_energy,
{
}

/// After buff `id` is removed it is carried no more, and its stacks are gone.
pub proof fn lemma_remove_buff_clears_stacks(s: Seq<(u32, u32)>, id: u32)
    ensures
        !has_stack(s.filter(|e: (u32, u32)| e.0 != id), id),
{
    let f = s.filter(|e: (u32, u32)| e.0 != id);
    assert forall|i: int| 0 <= i < f.len() implies #[trigger] f[i].0 != id by {
        s.lemma_filter_pred(|e: (u32, u32)| e.0 != id, i);
    }
}


impl BattleCharacter {
    /// Takes everything off the character: skills, buffs, items, its cell,
    /// element, damage stacks, hp, attack and defence; it counts as alive.
    pub fn clean_all(&mut self)
        ensures
            final(self).skills@.len() == 0,
            final(self).battle_buffs.buffs@.len() == 0,
            final(self).battle_buffs.passive_buffs@.len() == 0,
            final(self).battle_buffs.add_damage_buffs@.len() == 0,
            final(self).battle_buffs.sub_damage_buffs@.len() == 0,
            final(self).items@.len() == 0,
            final(self).index_data == (IndexData { map_cell_index: None, ..old(self).index_data }),
            final(self).base_attr == (BaseAttr { element: 0, hp: 0, atk: 0, defence: 0, ..old(self).base_attr }),
            final(self).state == BattleCterState::Alive,
            final(self).revenge_user_id == old(self).revenge_user_id,
            final(self).owner == old(self).owner,
            final(self).minons@ == old(self).minons@,
            final(self).is_major == old(self).is_major,
    {
        self.skills.clear();
        self.battle_buffs.buffs.clear();
        self.battle_buffs.passive_buffs.clear();
        self.items.clear();
        self.index_data.map_cell_index = None;
        self.base_attr.element = 0;
        self.battle_buffs.sub_damage_buffs.clear();
        self.battle_buffs.add_damage_buffs.clear();
        self.base_attr.hp = 0;
        self.base_attr.atk = 0;
        self.base_attr.defence = 0;
        self.state = BattleCterState::Alive;
    }
}

} // verus!
