//! Lookups by id in lists of buffs and skills, and checks made before a
//! player's request is carried out.

use vstd::prelude::*;
use crate::battle_buff::Buff;
use crate::battle_skill::Skill;
use crate::battle_cter::BattleCharacter;

verus! {

/// Looks an element up by its id.
pub trait Find<T> {
    fn find(&self, key: usize) -> Option<&T>;

    fn find_mut(&mut self, key: usize) -> Option<&mut T>;
}

/// Removes an element by its id.
pub trait Delete<T> {
    fn delete(&mut self, key: usize);
}

/// Whether some buff in `s` has id `id`.
pub open spec fn has_buff_id(s: Seq<Buff>, id: u32) -> bool {
    exists|i: int| 0 <= i < s.len() && #[trigger] s[i].id == id
}

/// `i` is the position of the first buff in `s` with id `id`.
pub open spec fn first_buff_with_id(s: Seq<Buff>, id: u32, i: int) -> bool {
    &&& 0 <= i < s.len()
    &&& s[i].id == id
    &&& forall|j: int| 0 <= j < i ==> #[trigger] s[j].id != id
}

/// Whether some skill in `s` has id `id`.
pub open spec fn has_skill_id(s: Seq<Skill>, id: u32) -> bool {
    exists|i: int| 0 <= i < s.len() && #[trigger] s[i].id == id
}

/// `i` is the position of the first skill in `s` with id `id`.
pub open spec fn first_skill_with_id(s: Seq<Skill>, id: u32, i: int) -> bool {
    &&& 0 <= i < s.len()
    &&& s[i].id == id
    &&& forall|j: int| 0 <= j < i ==> #[trigger] s[j].id != id
}

/// Position of the first buff with id `id`, if there is one.
pub fn buff_position(v: &Vec<Buff>, id: u32) -> (r: Option<usize>)
    ensures
        r is None <==> !has_buff_id(v@, id),
        r matches Some(i) ==> first_buff_with_id(v@, id, i as int),
{
    let mut i: usize = 0;
    while i < v.len()
        invariant
            i <= v.len(),
            forall|j: int| 0 <= j < i ==> #[trigger] v@[j].id != id,
        decreases v.len() - i,
    {
        if v[i].id == id {
            return Some(i);
        }
        i = i + 1;
    }
    None
}

/// Position of the first skill with id `id`, if there is one.
pub fn skill_position(v: &Vec<Skill>, id: u32) -> (r: Option<usize>)
    ensures
        r is None <==> !has_skill_id(v@, id),
        r matches Some(i) ==> first_skill_with_id(v@, id, i as int),
{
    let mut i: usize = 0;
    while i < v.len()
        invariant
            i <= v.len(),
            forall|j: int| 0 <= j < i ==> #[trigger] v@[j].id != id,
        decreases v.len() - i,
    {
        if v[i].id == id {
            return Some(i);
        }
        i = i + 1;
    }
    None
}

/// The id that a lookup key stands for: its low 32 bits.
pub open spec fn key_id(key: usize) -> u32 {
    key as u32
}

fn key_to_id(key: usize) -> (r: u32)
    ensures
        r == key_id(key),
{
    key as u32
}

impl Find<Buff> for Vec<Buff> {
    /// The first buff whose id is the key.
    fn find(&self, key: usize) -> (r: Option<&Buff>)
        ensures
            r is None <==> !has_buff_id(self@, key_id(key)),
            r matches Some(b) ==> exists|i: int|
                first_buff_with_id(self@, key_id(key), i) && *b == #[trigger] self@[i],
    {
        let id = key_to_id(key);
        match buff_position(self, id) {
            Some(i) => Some(&self[i]),
            None => None,
        }
    }

    /// The first buff whose id is the key, to be changed in place.
    fn find_mut(&mut self, key: usize) -> (r: Option<&mut Buff>)
        ensures
            r is None <==> !has_buff_id(old(self)@, key_id(key)),
            r is None ==> final(self)@ == old(self)@,
            r matches Some(b) ==> exists|i: int|
                first_buff_with_id(old(self)@, key_id(key), i) && *b == #[trigger] old(self)@[i]
                && final(self)@ == old(self)@.update(i, *final(b)),
    {
        let id = key_to_id(key);
        match buff_position(self, id) {
            Some(i) => Some(&mut self[i]),
            None => None,
        }
    }
}

impl Delete<Buff> for Vec<Buff> {
    /// Removes the first buff whose id is the key; nothing else changes.
    fn delete(&mut self, key: usize)
        ensures
            !has_buff_id(old(self)@, key_id(key)) ==> final(self)@ == old(self)@,
            forall|i: int| first_buff_with_id(old(self)@, key_id(key), i)
                ==> final(self)@ == #[trigger] old(self)@.remove(i),
    {
        let id = key_to_id(key);
        match buff_position(self, id) {
            Some(i) => {
                self.remove(i);
            },
            None => {},
        }
    }
}

impl Find<Skill> for Vec<Skill> {
    /// The first skill whose id is the key.
    fn find(&self, key: usize) -> (r: Option<&Skill>)
        ensures
            r is None <==> !has_skill_id(self@, key_id(key)),
            r matches Some(s) ==> exists|i: int|
                first_skill_with_id(self@, key_id(key), i) && *s == #[trigger] self@[i],
    {
        let id = key_to_id(key);
        match skill_position(self, id) {
            Some(i) => Some(&self[i]),
            None => None,
        }
    }

    /// The first skill whose id is the key, to be changed in place.
    fn find_mut(&mut self, key: usize) -> (r: Option<&mut Skill>)
        ensures
            r is None <==> !has_skill_id(old(self)@, key_id(key)),
            r is None ==> final(self)@ == old(self)@,
            r matches Some(s) ==> exists|i: int|
                first_skill_with_id(old(self)@, key_id(key), i) && *s == #[trigger] old(self)@[i]
                && final(self)@ == old(self)@.update(i, *final(s)),
    {
        let id = key_to_id(key);
        match skill_position(self, id) {
            Some(i) => Some(&mut self[i]),
            None => None,
        }
    }
}

impl Delete<Skill> for Vec<Skill> {
    /// Where some skill has the key as its id, the skill at the front of the
    /// list is removed (not necessarily the one with that id); otherwise
    /// nothing changes.
    fn delete(&mut self, key: usize)
        ensures
            !has_skill_id(old(self)@, key_id(key)) ==> final(self)@ == old(self)@,
            has_skill_id(old(self)@, key_id(key)) ==> final(self)@ == old(self)@.remove(0),
    {
        let len = self.len();
        let mut index: usize = 0;
        while index < len
            invariant
                len == self.len(),
                self@ == old(self)@,
                index <= len,
                index > 0 ==> !has_skill_id(self@, key_id(key)),
            decreases len - index,
        {
            let res = self.find(key);
            if res.is_none() {
                index = index + 1;
                continue;
            }
            self.remove(index);
            return;
        }
    }
}

/// Whether the two lists are the same: equal length and equal element by element.
pub fn is_same(vec1: &[u8], vec2: &[u8]) -> (r: bool)
    ensures
        r == (vec1@ == vec2@),
{
    if vec1.len() != vec2.len() {
        return false;
    }
    let mut i: usize = 0;
    while i < vec1.len()
        invariant
            i <= vec1@.len(),
            vec1@.len() == vec2@.len(),
            forall|a: int| 0 <= a < i ==> vec1@[a] == vec2@[a],
        decreases vec1.len() - i,
    {
        if vec1[i] != vec2[i] {
            return false;
        }
        i = i + 1;
    }
    assert(vec1@ =~= vec2@);
    true
}

/// Why a skill cannot be used now.
#[derive(Debug, Clone, Copy, PartialEq, Eq, Structural)]
pub enum SkillUseError {
    /// the skill (by id) is still cooling down
    CdNotReady(u32),
    /// the character has too little energy for the skill (by id)
    EnergyLow(u32),
}

/// Whether character `cter` can use `skill` now: a skill paid with energy
/// (consume type 1) needs enough energy, any other needs its cooldown over.
pub fn check_skill_useable(cter: &BattleCharacter, skill: &Skill) -> (r: Result<(), SkillUseError>)
    ensures
        r == if skill.skill_temp.consume_type != 1 && skill.cd_times > 0 {
            Err::<(), SkillUseError>(SkillUseError::CdNotReady(skill.id))
        } else if skill.skill_temp.consume_type == 1 && cter.base_attr.energy < skill.skill_temp.consume_value {
            Err::<(), SkillUseError>(SkillUseError::EnergyLow(skill.id))
        } else {
            Ok::<(), SkillUseError>(())
        },
{
    let energy_type = crate::battle_enum::SkillConsumeType::Energy.into_u8();
    if skill.skill_temp.consume_type != energy_type && skill.cd_times > 0 {
        Err(SkillUseError::CdNotReady(skill.id))
    } else if skill.skill_temp.consume_type == energy_type && cter.base_attr.energy < skill.skill_temp.consume_value {
        Err(SkillUseError::EnergyLow(skill.id))
    } else {
        Ok(())
    }
}

} // verus!
