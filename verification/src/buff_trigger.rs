//! Buffs that answer when a character is about to be moved or to use a skill.

use vstd::prelude::*;
use crate::battle::{BattleData, BattleError, has_player, player_alive, player_of, player_position, first_player, lemma_first_player_unique};
use crate::battle_buff::Buff;
use crate::battle_helper::{acting_player, current_cter_of};
use crate::battle_player::{first_cter, has_cter};
use crate::buff_type::{CAN_NOT_MOVED, LOCK_SKILLS};
use crate::robot_open_cell::lemma_current_cter;
use crate::battle_cter::{BaseAttr, BattleCharacter, cd_step, contains_u32, energy_after};
use crate::battle_enum::EffectType;
use crate::battle_helper::{TargetPt, TriggerEffectPt};
use crate::battle_player::cter_position;
use crate::battle_skill::clamped_cd;
use crate::buff_type::{ATTACKED_ADD_ENERGY, ATTACKED_SUB_CD};
use crate::battle_handler::{first_skill_with_id, skill_position};
use crate::battle_player::BattlePlayer;
use crate::battle_skill::Skill;
use crate::buff_type::LOCKED;
use crate::map_data::MapCell;
use crate::skill_action::{first_cter_at, lemma_first_cter_at_unique, locate_cter};

verus! {

/// Whether some buff of `bs` has function id `f`.
pub open spec fn has_function(bs: Seq<Buff>, f: u32) -> bool {
    exists|i: int| 0 <= i < bs.len() && #[trigger] bs[i].function_id == f
}

/// `i` is the first buff of `bs` whose function id is one of `fs`.
pub open spec fn first_with_function_in(bs: Seq<Buff>, fs: Seq<u32>, i: int) -> bool {
    &&& 0 <= i < bs.len()
    &&& fs.contains(bs[i].function_id)
    &&& forall|j: int| 0 <= j < i ==> !fs.contains(#[trigger] bs[j].function_id)
}

impl BattleData {
    /// Whether player `from_user` may move the character of player
    /// `target_user`: not where a buff of that character forbids it, unless
    /// the player moves its own character.
    #[verifier::loop_isolation(false)]
    pub fn before_moved_trigger(&self, from_user: u32, target_user: u32) -> (r: Result<(), BattleError>)
        requires
            acting_player(*self, target_user),
        ensures
            r is Err <==> (from_user != target_user
                && has_function(current_cter_of(player_of(self.battle_player@, target_user)).battle_buffs.buffs@, CAN_NOT_MOVED)),
            r matches Err(e) ==> e == BattleError::CanNotMove(target_user),
    {
        let p = match self.get_battle_player(Some(target_user), true) {
            Ok(p) => p,
            Err(e) => return Err(e),
        };
        let c = p.get_current_cter();
        proof {
            let i = choose|i: int| first_cter(p.cters@, p.current_cter.0, i) && *c == #[trigger] p.cters@[i];
            lemma_current_cter(*p, i);
        }
        let mut k: usize = 0;
        while k < c.battle_buffs.buffs.len()
            invariant
                k <= c.battle_buffs.buffs@.len(),
                forall|j: int| 0 <= j < k ==> !(#[trigger] c.battle_buffs.buffs@[j].function_id == CAN_NOT_MOVED && from_user != target_user),
            decreases c.battle_buffs.buffs@.len() - k,
        {
            if c.battle_buffs.buffs[k].function_id == CAN_NOT_MOVED && from_user != target_user {
                assert(c.battle_buffs.buffs@[k as int].function_id == CAN_NOT_MOVED);
                return Err(BattleError::CanNotMove(target_user));
            }
            k = k + 1;
        }
        proof {
            if from_user != target_user && has_function(c.battle_buffs.buffs@, CAN_NOT_MOVED) {
                let j = choose|j: int| 0 <= j < c.battle_buffs.buffs@.len() && #[trigger] c.battle_buffs.buffs@[j].function_id == CAN_NOT_MOVED;
                assert(!(c.battle_buffs.buffs@[j].function_id == CAN_NOT_MOVED && from_user != target_user));
            }
        }
        Ok(())
    }

    /// Whether player `user_id` may use a skill now: it must be in the
    /// battle, and no buff of its character may lock its skills (the error
    /// names the first such buff).
    #[verifier::loop_isolation(false)]
    pub fn before_use_skill_trigger(&self, user_id: u32) -> (r: Result<(), BattleError>)
        requires
            has_player(self.battle_player@, user_id) && player_alive(player_of(self.battle_player@, user_id))
                ==> has_cter(player_of(self.battle_player@, user_id).cters@, player_of(self.battle_player@, user_id).current_cter.0),
        ensures
            !has_player(self.battle_player@, user_id) ==> r == Err::<(), BattleError>(BattleError::NoPlayer(user_id)),
            has_player(self.battle_player@, user_id) && !player_alive(player_of(self.battle_player@, user_id))
                ==> r == Err::<(), BattleError>(BattleError::PlayerDied(user_id)),
            acting_player(*self, user_id) ==> {
                let bs = current_cter_of(player_of(self.battle_player@, user_id)).battle_buffs.buffs@;
                if exists|i: int| #[trigger] first_with_function_in(bs, LOCK_SKILLS@, i) {
                    exists|i: int| #[trigger] first_with_function_in(bs, LOCK_SKILLS@, i)
                        && r == Err::<(), BattleError>(BattleError::SkillLocked(bs[i].id))
                } else {
                    r is Ok
                }
            },
    {
        let p = match self.get_battle_player(Some(user_id), true) {
            Ok(p) => p,
            Err(e) => return Err(e),
        };
        let c = p.get_current_cter();
        proof {
            let i = choose|i: int| first_cter(p.cters@, p.current_cter.0, i) && *c == #[trigger] p.cters@[i];
            lemma_current_cter(*p, i);
        }
        let mut k: usize = 0;
        while k < c.battle_buffs.buffs.len()
            invariant
                k <= c.battle_buffs.buffs@.len(),
                forall|j: int| 0 <= j < k ==> !LOCK_SKILLS@.contains(#[trigger] c.battle_buffs.buffs@[j].function_id),
            decreases c.battle_buffs.buffs@.len() - k,
        {
            let b = &c.battle_buffs.buffs[k];
            if contains_u32(&LOCK_SKILLS, b.function_id) {
                assert(first_with_function_in(c.battle_buffs.buffs@, LOCK_SKILLS@, k as int));
                return Err(BattleError::SkillLocked(b.id));
            }
            k = k + 1;
        }
        proof {
            if exists|i: int| #[trigger] first_with_function_in(c.battle_buffs.buffs@, LOCK_SKILLS@, i) {
                let i = choose|i: int| #[trigger] first_with_function_in(c.battle_buffs.buffs@, LOCK_SKILLS@, i);
                assert(!LOCK_SKILLS@.contains(c.battle_buffs.buffs@[i].function_id));
            }
        }
        Ok(())
    }
}

/// The (character, skill) pairs that the locks among `bs` came from, in order.
pub open spec fn buff_lock_sources(bs: Seq<Buff>) -> Seq<(u32, u32)>
    decreases bs.len(),
{
    if bs.len() == 0 {
        Seq::empty()
    } else {
        let b = bs.last();
        buff_lock_sources(bs.drop_last()) + if b.function_id == LOCKED && b.from_cter is Some {
            seq![(b.from_cter.unwrap(), b.from_skill.unwrap())]
        } else {
            Seq::<(u32, u32)>::empty()
        }
    }
}

/// The (character, skill) pairs that the locks on the cells came from, in map order.
pub open spec fn lock_sources(cells: Seq<MapCell>) -> Seq<(u32, u32)>
    decreases cells.len(),
{
    if cells.len() == 0 {
        Seq::empty()
    } else {
        lock_sources(cells.drop_last()) + buff_lock_sources(cells.last().buffs@)
    }
}

/// Whether every lock among `bs` that came from a character names the skill too.
pub open spec fn locks_name_skills(bs: Seq<Buff>) -> bool {
    forall|b: int| 0 <= b < bs.len() && #[trigger] bs[b].function_id == LOCKED && bs[b].from_cter is Some
        ==> bs[b].from_skill is Some
}

/// Skill `k` of character `j` of player `i` is one a lock of `srcs` came
/// from: the first skill with that id of the first character with that id.
pub open spec fn lock_hit(ps: Seq<BattlePlayer>, srcs: Seq<(u32, u32)>, i: int, j: int, k: int) -> bool {
    exists|m: int| 0 <= m < srcs.len() && #[trigger] first_cter_at(ps, srcs[m].0, i, j)
        && first_skill_with_id(ps[i].cters@[j].skills@, srcs[m].1, k)
}

/// `ps1` is `ps0` with every skill a lock of `srcs` came from no longer active.
pub open spec fn skills_released(ps0: Seq<BattlePlayer>, ps1: Seq<BattlePlayer>, srcs: Seq<(u32, u32)>) -> bool {
    &&& ps1.len() == ps0.len()
    &&& forall|i: int| 0 <= i < ps0.len() ==> #[trigger] ps1[i] == BattlePlayer { cters: ps1[i].cters, ..ps0[i] }
    &&& forall|i: int| 0 <= i < ps0.len() ==> (#[trigger] ps1[i]).cters@.len() == ps0[i].cters@.len()
    &&& forall|i: int, j: int| 0 <= i < ps0.len() && 0 <= j < ps0[i].cters@.len()
        ==> #[trigger] ps1[i].cters@[j] == BattleCharacter { skills: ps1[i].cters@[j].skills, ..ps0[i].cters@[j] }
    &&& forall|i: int, j: int| 0 <= i < ps0.len() && 0 <= j < ps0[i].cters@.len()
        ==> (#[trigger] ps1[i].cters@[j]).skills@.len() == ps0[i].cters@[j].skills@.len()
    &&& forall|i: int, j: int, k: int| 0 <= i < ps0.len() && 0 <= j < ps0[i].cters@.len() && 0 <= k < ps0[i].cters@[j].skills@.len()
        ==> #[trigger] ps1[i].cters@[j].skills@[k] == if lock_hit(ps0, srcs, i, j, k) {
            Skill { is_active: false, ..ps0[i].cters@[j].skills@[k] }
        } else {
            ps0[i].cters@[j].skills@[k]
        }
}

proof fn lemma_same_cter_ids(ps0: Seq<BattlePlayer>, ps1: Seq<BattlePlayer>, srcs: Seq<(u32, u32)>, id: u32, i: int, j: int)
    requires
        skills_released(ps0, ps1, srcs),
    ensures
        first_cter_at(ps1, id, i, j) == first_cter_at(ps0, id, i, j),
{
    assert forall|a: int, b: int| 0 <= a < ps0.len() && 0 <= b < ps0[a].cters@.len()
        implies #[trigger] ps1[a].cters@[b].base_attr.cter_id == ps0[a].cters@[b].base_attr.cter_id by {
        assert(ps1[a].cters@[b] == BattleCharacter { skills: ps1[a].cters@[b].skills, ..ps0[a].cters@[b] });
    }
    assert forall|a: int| 0 <= a < ps0.len() implies (#[trigger] ps1[a]).cters@.len() == ps0[a].cters@.len() by {}
    if first_cter_at(ps1, id, i, j) {
        assert forall|a: int, b: int| 0 <= a < i && 0 <= b < ps0[a].cters@.len()
            implies #[trigger] ps0[a].cters@[b].base_attr.cter_id != id by {
            assert(ps1[a].cters@[b].base_attr.cter_id != id);
        }
        assert forall|b: int| 0 <= b < j implies #[trigger] ps0[i].cters@[b].base_attr.cter_id != id by {
            assert(ps1[i].cters@[b].base_attr.cter_id != id);
        }
        assert(first_cter_at(ps0, id, i, j));
    }
    if first_cter_at(ps0, id, i, j) {
        assert forall|a: int, b: int| 0 <= a < i && 0 <= b < ps1[a].cters@.len()
            implies #[trigger] ps1[a].cters@[b].base_attr.cter_id != id by {
            assert(ps0[a].cters@[b].base_attr.cter_id != id);
        }
        assert forall|b: int| 0 <= b < j implies #[trigger] ps1[i].cters@[b].base_attr.cter_id != id by {
            assert(ps0[i].cters@[b].base_attr.cter_id != id);
        }
        assert(first_cter_at(ps1, id, i, j));
    }
}

proof fn lemma_first_skill_unique(s: Seq<Skill>, id: u32, a: int, b: int)
    requires
        first_skill_with_id(s, id, a),
        first_skill_with_id(s, id, b),
    ensures
        a == b,
{
    if a < b {
        assert(s[a].id != id);
    } else if b < a {
        assert(s[b].id != id);
    }
}

impl BattleData {
    /// Before the map is refreshed, the locks on it let go: each skill a
    /// lock came from (the first skill with that id of the first character
    /// with the lock's character id) is no longer active. Nothing else changes.
    pub fn before_map_refresh_buff_trigger(&mut self)
        requires
            forall|c: int| 0 <= c < old(self).tile_map.map_cells@.len()
                ==> locks_name_skills(#[trigger] old(self).tile_map.map_cells@[c].buffs@),
        ensures
            skills_released(old(self).battle_player@, final(self).battle_player@, lock_sources(old(self).tile_map.map_cells@)),
            *final(self) == (BattleData { battle_player: final(self).battle_player, ..*old(self) }),
    {
        let ghost bd0 = *self;
        let ghost ps0 = self.battle_player@;
        let ghost cells = self.tile_map.map_cells@;
        let mut c: usize = 0;
        while c < self.tile_map.map_cells.len()
            invariant
                cells == bd0.tile_map.map_cells@,
                ps0 == bd0.battle_player@,
                *self == (BattleData { battle_player: self.battle_player, ..bd0 }),
                c <= cells.len(),
                forall|q: int| 0 <= q < cells.len() ==> locks_name_skills(#[trigger] cells[q].buffs@),
                skills_released(ps0, self.battle_player@, lock_sources(cells.take(c as int))),
            decreases cells.len() - c,
        {
            proof {
                assert(cells.take(c + 1).drop_last() =~= cells.take(c as int));
                assert(cells.take(c + 1).last() == cells[c as int]);
            }
            let ghost prefix = lock_sources(cells.take(c as int));
            let ghost bs = cells[c as int].buffs@;
            assert(locks_name_skills(bs));
            let mut b: usize = 0;
            while b < self.tile_map.map_cells[c].buffs.len()
                invariant
                    cells == bd0.tile_map.map_cells@,
                    ps0 == bd0.battle_player@,
                    *self == (BattleData { battle_player: self.battle_player, ..bd0 }),
                    c < cells.len(),
                    bs == cells[c as int].buffs@,
                    locks_name_skills(bs),
                    b <= bs.len(),
                    skills_released(ps0, self.battle_player@, prefix + buff_lock_sources(bs.take(b as int))),
                decreases bs.len() - b,
            {
                proof {
                    assert(bs.take(b + 1).drop_last() =~= bs.take(b as int));
                    assert(bs.take(b + 1).last() == bs[b as int]);
                }
                let ghost before = prefix + buff_lock_sources(bs.take(b as int));
                let buff = &self.tile_map.map_cells[c].buffs[b];
                if buff.function_id == LOCKED && buff.from_cter.is_some() {
                    let cid = buff.from_cter.unwrap();
                    let sid = buff.from_skill.unwrap();
                    let ghost after = before.push((cid, sid));
                    proof {
                        assert(prefix + buff_lock_sources(bs.take(b + 1)) =~= after);
                    }
                    let ghost ps_before = self.battle_player@;
                    match locate_cter(self, cid) {
                        None => {
                            proof {
                                assert forall|i: int, j: int, k: int|
                                    0 <= i < ps0.len() && 0 <= j < ps0[i].cters@.len() && 0 <= k < ps0[i].cters@[j].skills@.len()
                                    implies lock_hit(ps0, after, i, j, k) == lock_hit(ps0, before, i, j, k) by {
                                    if lock_hit(ps0, after, i, j, k) {
                                        let m = choose|m: int| 0 <= m < after.len() && #[trigger] first_cter_at(ps0, after[m].0, i, j)
                                            && first_skill_with_id(ps0[i].cters@[j].skills@, after[m].1, k);
                                        if m == before.len() {
                                            lemma_same_cter_ids(ps0, ps_before, before, cid, i, j);
                                            assert(first_cter_at(ps_before, cid, i, j));
                                        } else {
                                            assert(after[m] == before[m]);
                                        }
                                    }
                                    if lock_hit(ps0, before, i, j, k) {
                                        let m = choose|m: int| 0 <= m < before.len() && #[trigger] first_cter_at(ps0, before[m].0, i, j)
                                            && first_skill_with_id(ps0[i].cters@[j].skills@, before[m].1, k);
                                        assert(after[m] == before[m]);
                                    }
                                }
                            }
                        },
                        Some((i, j)) => {
                            proof {
                                lemma_same_cter_ids(ps0, ps_before, before, cid, i as int, j as int);
                            }
                            match skill_position(&self.battle_player[i].cters[j].skills, sid) {
                                None => {
                                    proof {
                                        assert forall|i2: int, j2: int, k: int|
                                            0 <= i2 < ps0.len() && 0 <= j2 < ps0[i2].cters@.len() && 0 <= k < ps0[i2].cters@[j2].skills@.len()
                                            implies lock_hit(ps0, after, i2, j2, k) == lock_hit(ps0, before, i2, j2, k) by {
                                            if lock_hit(ps0, after, i2, j2, k) {
                                                let m = choose|m: int| 0 <= m < after.len() && #[trigger] first_cter_at(ps0, after[m].0, i2, j2)
                                                    && first_skill_with_id(ps0[i2].cters@[j2].skills@, after[m].1, k);
                                                if m == before.len() {
                                                    lemma_first_cter_at_unique(ps0, cid, i as int, j as int, i2, j2);
                                                    let sk = ps_before[i as int].cters@[j as int].skills@;
                                                    assert(sk[k] == Skill { is_active: sk[k].is_active, ..ps0[i2].cters@[j2].skills@[k] });
                                                    assert(sk[k].id == sid);
                                                } else {
                                                    assert(after[m] == before[m]);
                                                }
                                            }
                                            if lock_hit(ps0, before, i2, j2, k) {
                                                let m = choose|m: int| 0 <= m < before.len() && #[trigger] first_cter_at(ps0, before[m].0, i2, j2)
                                                    && first_skill_with_id(ps0[i2].cters@[j2].skills@, before[m].1, k);
                                                assert(after[m] == before[m]);
                                            }
                                        }
                                    }
                                },
                                Some(k) => {
                                    self.battle_player[i].cters[j].skills[k].is_active = false;
                                    proof {
                                        let s0 = ps0[i as int].cters@[j as int].skills@;
                                        let sb = ps_before[i as int].cters@[j as int].skills@;
                                        assert(sb.len() == s0.len());
                                        assert forall|q: int| 0 <= q < s0.len() implies #[trigger] s0[q].id == sb[q].id by {
                                            assert(sb[q] == if lock_hit(ps0, before, i as int, j as int, q) {
                                                Skill { is_active: false, ..s0[q] }
                                            } else {
                                                s0[q]
                                            });
                                        }
                                        assert(first_skill_with_id(sb, sid, k as int));
                                        assert forall|q: int| 0 <= q < k implies #[trigger] s0[q].id != sid by {
                                            assert(sb[q].id != sid);
                                        }
                                        assert(first_skill_with_id(s0, sid, k as int));
                                        assert forall|i2: int, j2: int, k2: int|
                                            0 <= i2 < ps0.len() && 0 <= j2 < ps0[i2].cters@.len() && 0 <= k2 < ps0[i2].cters@[j2].skills@.len()
                                            implies lock_hit(ps0, after, i2, j2, k2) == (lock_hit(ps0, before, i2, j2, k2)
                                                || (i2 == i && j2 == j && k2 == k)) by {
                                            if lock_hit(ps0, after, i2, j2, k2) {
                                                let m = choose|m: int| 0 <= m < after.len() && #[trigger] first_cter_at(ps0, after[m].0, i2, j2)
                                                    && first_skill_with_id(ps0[i2].cters@[j2].skills@, after[m].1, k2);
                                                if m == before.len() {
                                                    lemma_first_cter_at_unique(ps0, cid, i as int, j as int, i2, j2);
                                                    lemma_first_skill_unique(s0, sid, k as int, k2);
                                                } else {
                                                    assert(after[m] == before[m]);
                                                }
                                            }
                                            if lock_hit(ps0, before, i2, j2, k2) {
                                                let m = choose|m: int| 0 <= m < before.len() && #[trigger] first_cter_at(ps0, before[m].0, i2, j2)
                                                    && first_skill_with_id(ps0[i2].cters@[j2].skills@, before[m].1, k2);
                                                assert(after[m] == before[m]);
                                            }
                                            if i2 == i && j2 == j && k2 == k {
                                                let m = before.len() as int;
                                                assert(after[m] == (cid, sid));
                                                assert(first_cter_at(ps0, after[m].0, i2, j2));
                                            }
                                        }
                                    }
                                },
                            }
                        },
                    }
                } else {
                    proof {
                        assert(prefix + buff_lock_sources(bs.take(b + 1)) =~= before);
                    }
                }
                b = b + 1;
            }
            proof {
                assert(bs.take(bs.len() as int) =~= bs);
                assert(lock_sources(cells.take(c + 1)) =~= prefix + buff_lock_sources(bs));
            }
            c = c + 1;
        }
        proof {
            assert(cells.take(cells.len() as int) =~= cells);
        }
    }
}

/// Whether buff `b` gives energy to a character with maximum `max` when it is attacked.
pub open spec fn gives_energy_when_attacked(b: Buff, max: u8) -> bool {
    ATTACKED_ADD_ENERGY@.contains(b.function_id) && max > 0
}

/// The energy after the first `n` buffs of `bs` answered an attack, from `e0`.
pub open spec fn attacked_energy(bs: Seq<Buff>, n: nat, e0: u8, max: u8) -> u8
    decreases n,
{
    if n == 0 {
        e0
    } else {
        let e = attacked_energy(bs, (n - 1) as nat, e0, max);
        let b = bs[n - 1];
        if gives_energy_when_attacked(b, max) {
            energy_after(e, max, b.buff_temp.par1 as i8) as u8
        } else {
            e
        }
    }
}

/// The skills `s` after the cooldown of every inactive one moved by `value`
/// (taken as negative; see `sub_skill_cd`).
pub open spec fn cds_cut(s: Seq<Skill>, value: Option<i8>) -> Seq<Skill> {
    Seq::new(s.len(), |i: int| if s[i].is_active {
        s[i]
    } else {
        Skill { cd_times: clamped_cd(s[i].cd_times, cd_step(value) as i8, s[i].skill_temp.cd) as i8, ..s[i] }
    })
}

/// The skills after the first `n` buffs of `bs` answered an attack, from `s0`.
pub open spec fn attacked_skills(bs: Seq<Buff>, n: nat, s0: Seq<Skill>) -> Seq<Skill>
    decreases n,
{
    if n == 0 {
        s0
    } else {
        let s = attacked_skills(bs, (n - 1) as nat, s0);
        let b = bs[n - 1];
        if b.function_id == ATTACKED_SUB_CD { cds_cut(s, Some(b.buff_temp.par1 as i8)) } else { s }
    }
}

/// The effects the first `n` buffs of `bs` show when they answer an attack.
pub open spec fn attacked_effects(bs: Seq<Buff>, n: nat, max: u8) -> Seq<TriggerEffectPt>
    decreases n,
{
    if n == 0 {
        Seq::empty()
    } else {
        let b = bs[n - 1];
        attacked_effects(bs, (n - 1) as nat, max)
            + if gives_energy_when_attacked(b, max) {
                seq![TriggerEffectPt { field_type: EffectType::AddEnergy.code() as u32, value: b.buff_temp.par1, buff_id: b.id }]
            } else {
                Seq::<TriggerEffectPt>::empty()
            }
            + if b.function_id == ATTACKED_SUB_CD {
                seq![TriggerEffectPt { field_type: EffectType::SubSkillCd.code() as u32, value: b.buff_temp.par1, buff_id: b.id }]
            } else {
                Seq::<TriggerEffectPt>::empty()
            }
    }
}

/// Whether the first `n` buffs of `bs` can answer an attack without the
/// energy or a cooldown leaving the range of its type on the way.
pub open spec fn attacked_fits(bs: Seq<Buff>, n: nat, e0: u8, max: u8, s0: Seq<Skill>) -> bool
    decreases n,
{
    if n == 0 {
        true
    } else {
        let b = bs[n - 1];
        let e = attacked_energy(bs, (n - 1) as nat, e0, max);
        let s = attacked_skills(bs, (n - 1) as nat, s0);
        let v = b.buff_temp.par1 as i8;
        &&& attacked_fits(bs, (n - 1) as nat, e0, max, s0)
        &&& gives_energy_when_attacked(b, max) ==> e <= 127 && max <= 127 && i8::MIN <= e + v <= i8::MAX
        &&& b.function_id == ATTACKED_SUB_CD
            ==> forall|i: int| 0 <= i < s.len() && !s[i].is_active ==> #[trigger] s[i].cd_times + cd_step(Some(v)) >= i8::MIN
    }
}

impl BattleData {
    /// After player `user_id` was attacked, the buffs of the character it
    /// acts with answer, in order: one that gives energy when attacked adds
    /// its first parameter to the energy (where the character has energy at
    /// all), one that cuts cooldowns when attacked cuts those of the
    /// inactive skills by it; each shows its effect on `target_pt`. Nothing
    /// happens where the player is not in the battle.
    pub fn attacked_after_trigger(&mut self, user_id: u32, target_pt: &mut TargetPt)
        requires
            acting_player(*old(self), user_id) ==> {
                let c = current_cter_of(player_of(old(self).battle_player@, user_id));
                let bs = c.battle_buffs.buffs@;
                attacked_fits(bs, bs.len(), c.base_attr.energy, c.base_attr.max_energy, c.skills@)
            },
            has_player(old(self).battle_player@, user_id) && player_alive(player_of(old(self).battle_player@, user_id))
                ==> has_cter(player_of(old(self).battle_player@, user_id).cters@, player_of(old(self).battle_player@, user_id).current_cter.0),
        ensures
            !acting_player(*old(self), user_id) ==> *final(self) == *old(self) && *final(target_pt) == *old(target_pt),
            acting_player(*old(self), user_id) ==> {
                let ps0 = old(self).battle_player@;
                let p0 = player_of(ps0, user_id);
                let c0 = current_cter_of(p0);
                let bs = c0.battle_buffs.buffs@;
                let max = c0.base_attr.max_energy;
                exists|i: int, k: int| #[trigger] first_player(ps0, user_id, i) && #[trigger] first_cter(p0.cters@, p0.current_cter.0, k)
                    && final(self).battle_player@ == ps0.update(i, BattlePlayer { cters: final(self).battle_player@[i].cters, ..p0 })
                    && final(self).battle_player@[i].cters@.len() == p0.cters@.len()
                    && (forall|m: int| 0 <= m < p0.cters@.len() && m != k ==> #[trigger] final(self).battle_player@[i].cters@[m] == p0.cters@[m])
                    && final(self).battle_player@[i].cters@[k] == (BattleCharacter {
                        base_attr: BaseAttr { energy: attacked_energy(bs, bs.len(), c0.base_attr.energy, max), ..c0.base_attr },
                        skills: final(self).battle_player@[i].cters@[k].skills,
                        ..c0
                    })
                    && final(self).battle_player@[i].cters@[k].skills@ == attacked_skills(bs, bs.len(), c0.skills@)
            } && *final(self) == (BattleData { battle_player: final(self).battle_player, ..*old(self) })
              && final(target_pt).target_value == old(target_pt).target_value
              && final(target_pt).effects == old(target_pt).effects
              && final(target_pt).add_buffs == old(target_pt).add_buffs
              && final(target_pt).passive_effect@ == old(target_pt).passive_effect@
                + attacked_effects(current_cter_of(player_of(old(self).battle_player@, user_id)).battle_buffs.buffs@,
                    current_cter_of(player_of(old(self).battle_player@, user_id)).battle_buffs.buffs@.len(),
                    current_cter_of(player_of(old(self).battle_player@, user_id)).base_attr.max_energy),
    {
        let pi = match self.get_battle_player_pos(user_id, true) {
            Ok(i) => i,
            Err(_) => return,
        };
        let ghost ps0 = self.battle_player@;
        let ghost p0 = ps0[pi as int];
        let ci = match cter_position(&self.battle_player[pi].cters, self.battle_player[pi].current_cter.0) {
            Some(k) => k,
            None => return,
        };
        proof {
            lemma_current_cter(p0, ci as int);
        }
        let ghost c0 = p0.cters@[ci as int];
        let ghost bs = c0.battle_buffs.buffs@;
        let ghost bd0 = *self;
        let ghost tp0 = *target_pt;
        let max_energy = self.battle_player[pi].cters[ci].base_attr.max_energy;
        let n = self.battle_player[pi].cters[ci].battle_buffs.buffs.len();
        let mut k: usize = 0;
        while k < n
            invariant
                bd0.battle_player@ == ps0,
                p0 == ps0[pi as int],
                pi < ps0.len(),
                ci < p0.cters@.len(),
                c0 == p0.cters@[ci as int],
                bs == c0.battle_buffs.buffs@,
                n == bs.len(),
                max_energy == c0.base_attr.max_energy,
                k <= n,
                attacked_fits(bs, bs.len(), c0.base_attr.energy, max_energy, c0.skills@),
                *self == (BattleData { battle_player: self.battle_player, ..bd0 }),
                self.battle_player@ == ps0.update(pi as int, BattlePlayer { cters: self.battle_player@[pi as int].cters, ..p0 }),
                self.battle_player@[pi as int].cters@.len() == p0.cters@.len(),
                forall|m: int| 0 <= m < p0.cters@.len() && m != ci ==> #[trigger] self.battle_player@[pi as int].cters@[m] == p0.cters@[m],
                self.battle_player@[pi as int].cters@[ci as int] == (BattleCharacter {
                    base_attr: BaseAttr { energy: attacked_energy(bs, k as nat, c0.base_attr.energy, max_energy), ..c0.base_attr },
                    skills: self.battle_player@[pi as int].cters@[ci as int].skills,
                    ..c0
                }),
                self.battle_player@[pi as int].cters@[ci as int].skills@ == attacked_skills(bs, k as nat, c0.skills@),
                target_pt.target_value == tp0.target_value,
                target_pt.effects == tp0.effects,
                target_pt.add_buffs == tp0.add_buffs,
                target_pt.passive_effect@ == tp0.passive_effect@ + attacked_effects(bs, k as nat, max_energy),
            decreases n - k,
        {
            proof {
                lemma_attacked_fits_prefix(bs, bs.len(), (k + 1) as nat, c0.base_attr.energy, max_energy, c0.skills@);
            }
            let ghost before = target_pt.passive_effect@;
            let fid = self.battle_player[pi].cters[ci].battle_buffs.buffs[k].function_id;
            let par1 = self.battle_player[pi].cters[ci].battle_buffs.buffs[k].buff_temp.par1;
            let buff_id = self.battle_player[pi].cters[ci].battle_buffs.buffs[k].id;
            let gives = contains_u32(&ATTACKED_ADD_ENERGY, fid) && max_energy > 0;
            if gives {
                target_pt.passive_effect.push(TriggerEffectPt { field_type: EffectType::AddEnergy.into_u32(), value: par1, buff_id });
                self.battle_player[pi].cters[ci].add_energy(par1 as i8);
            }
            let ghost mid = target_pt.passive_effect@;
            if fid == ATTACKED_SUB_CD {
                target_pt.passive_effect.push(TriggerEffectPt { field_type: EffectType::SubSkillCd.into_u32(), value: par1, buff_id });
                let ghost s = self.battle_player@[pi as int].cters@[ci as int].skills@;
                self.battle_player[pi].cters[ci].sub_skill_cd(Some(par1 as i8));
                proof {
                    assert(self.battle_player@[pi as int].cters@[ci as int].skills@ =~= cds_cut(s, Some(par1 as i8)));
                }
            }
            proof {
                let b = bs[k as int];
                assert(target_pt.passive_effect@ =~= tp0.passive_effect@ + attacked_effects(bs, (k + 1) as nat, max_energy));
            }
            k = k + 1;
        }
        proof {
            let i = choose|i: int| first_player(ps0, user_id, i) && ps0[pi as int] == player_of(ps0, user_id);
            assert(first_player(ps0, user_id, pi as int));
        }
    }
}

proof fn lemma_attacked_fits_prefix(bs: Seq<Buff>, n: nat, m: nat, e0: u8, max: u8, s0: Seq<Skill>)
    requires
        m <= n,
        attacked_fits(bs, n, e0, max, s0),
    ensures
        attacked_fits(bs, m, e0, max, s0),
    decreases n,
{
    if m < n {
        lemma_attacked_fits_prefix(bs, (n - 1) as nat, m, e0, max, s0);
    }
}

} // verus!
