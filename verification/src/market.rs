//! The shop of a battle.

use vstd::prelude::*;
use crate::battle::{BattleData, first_player, has_player, player_alive, player_of, player_position};
use crate::battle_cter::{BaseAttr, BattleCharacter, cd_step, energy_after, healed_cter};
use crate::battle_enum::BattleCterState;
use crate::battle_helper::{acting_player, current_cter_of};
use crate::battle_player::{BattlePlayer, count_of, first_cter, gold_after, has_cter};
use crate::battle_skill::{Skill, clamped_cd};
use crate::mission::{MissionTemp, mission_taken, player_mission_candidates, random_mission};

verus! {

/// Kind of merchandise.
#[derive(Debug, Clone, Copy, PartialEq, Eq, Structural)]
pub enum MerchandisType {
    /// adds hp
    Hp,
    /// adds attack
    Attack,
    /// lowers every skill cooldown
    SkillCd,
    /// adds energy
    Energy,
    /// gives a new mission
    Mission,
}

impl MerchandisType {
    /// The number that stands for this variant on the wire and in configuration.
    pub open spec fn code(self) -> u8 {
        match self {
            MerchandisType::Hp => 1u8,
            MerchandisType::Attack => 2u8,
            MerchandisType::SkillCd => 3u8,
            MerchandisType::Energy => 4u8,
            MerchandisType::Mission => 5u8,
        }
    }

    pub fn into_u8(self) -> (r: u8)
        ensures
            r == self.code(),
    {
        match self {
            MerchandisType::Hp => 1,
            MerchandisType::Attack => 2,
            MerchandisType::SkillCd => 3,
            MerchandisType::Energy => 4,
            MerchandisType::Mission => 5,
        }
    }

    /// The variant whose code is `v`, if there is one.
    pub fn try_from_u8(v: u8) -> (r: Option<MerchandisType>)
        ensures
            r matches Some(e) ==> e.code() == v,
            r is None <==> !(v == 1 || v == 2 || v == 3 || v == 4 || v == 5),
    {
        if v == 1 {
            Some(MerchandisType::Hp)
        } else if v == 2 {
            Some(MerchandisType::Attack)
        } else if v == 3 {
            Some(MerchandisType::SkillCd)
        } else if v == 4 {
            Some(MerchandisType::Energy)
        } else if v == 5 {
            Some(MerchandisType::Mission)
        } else {
            None
        }
    }
}

/// The configured values of a piece of merchandise.
#[derive(Debug, Clone, Copy, PartialEq, Eq, Structural)]
pub struct MerchandiseTemp {
    pub id: u32,
    pub price: i32,
    /// code of the `MerchandisType` of what it gives
    pub effect_type: u8,
    pub effect_value: i32,
    /// how many times a player may buy it in a turn
    pub turn_limit_buy_times: u8,
}

/// The configured values of a robot: what it may buy.
pub struct RobotTemp {
    pub id: u32,
    pub merchandises: Vec<u32>,
}

/// `i` is the position of the first merchandise with id `id`.
pub open spec fn first_merch(temps: Seq<MerchandiseTemp>, id: u32, i: int) -> bool {
    &&& 0 <= i < temps.len()
    &&& temps[i].id == id
    &&& forall|j: int| 0 <= j < i ==> #[trigger] temps[j].id != id
}

/// The merchandise with id `id`, where one is configured.
pub open spec fn merch_of(temps: Seq<MerchandiseTemp>, id: u32) -> Option<MerchandiseTemp> {
    if exists|i: int| #[trigger] first_merch(temps, id, i) {
        Some(temps[choose|i: int| #[trigger] first_merch(temps, id, i)])
    } else {
        None
    }
}

/// The merchandise with id `id` (see `merch_of`).
pub fn find_merchandise(temps: &Vec<MerchandiseTemp>, id: u32) -> (r: Option<MerchandiseTemp>)
    ensures
        r == merch_of(temps@, id),
{
    let mut i: usize = 0;
    while i < temps.len()
        invariant
            i <= temps@.len(),
            forall|j: int| 0 <= j < i ==> #[trigger] temps@[j].id != id,
        decreases temps.len() - i,
    {
        if temps[i].id == id {
            proof {
                assert(first_merch(temps@, id, i as int));
                let k = choose|k: int| #[trigger] first_merch(temps@, id, k);
                if k < i {
                    assert(temps@[k].id != id);
                } else if i < k {
                    assert(temps@[i as int].id != id);
                }
            }
            return Some(temps[i]);
        }
        i = i + 1;
    }
    None
}

/// Whether the player may buy merchandise `id` now: it is configured, the
/// player bought it fewer times this turn than allowed, and has the gold.
pub open spec fn could_buy(p: BattlePlayer, id: u32, temps: Seq<MerchandiseTemp>) -> bool {
    match merch_of(temps, id) {
        None => false,
        Some(t) => count_of(p.merchandise_data.buy_map@, id, 0u8) < t.turn_limit_buy_times && p.gold >= t.price,
    }
}

/// Whether the player may buy merchandise `merchandise_id` now (see `could_buy`).
pub fn get_could_buy(battle_player: &BattlePlayer, merchandise_id: u32, temps: &Vec<MerchandiseTemp>) -> (r: bool)
    ensures
        r == could_buy(*battle_player, merchandise_id, temps@),
{
    let t = match find_merchandise(temps, merchandise_id) {
        None => return false,
        Some(t) => t,
    };
    let buy_times = battle_player.merchandise_data.get_turn_buy_times(merchandise_id);
    if buy_times >= t.turn_limit_buy_times {
        return false;
    }
    if battle_player.gold < t.price {
        return false;
    }
    true
}

/// The shop's rule, for the first configuration `temps[i]` of merchandise
/// `id`: bought as often as allowed this turn, it cannot be bought; bought
/// fewer times, it can exactly when the player's gold reaches its price
/// (gold equal to the price is enough). Merchandise with no configuration
/// cannot be bought.
pub proof fn law_buy_needs_gold_reaching_price(p: BattlePlayer, id: u32, temps: Seq<MerchandiseTemp>, i: int)
    ensures
        (forall|k: int| 0 <= k < temps.len() ==> #[trigger] temps[k].id != id) ==> !could_buy(p, id, temps),
        first_merch(temps, id, i) && count_of(p.merchandise_data.buy_map@, id, 0u8) >= temps[i].turn_limit_buy_times
            ==> !could_buy(p, id, temps),
        first_merch(temps, id, i) && count_of(p.merchandise_data.buy_map@, id, 0u8) < temps[i].turn_limit_buy_times
            ==> (could_buy(p, id, temps) <==> p.gold >= temps[i].price),
{
    if exists|k: int| #[trigger] first_merch(temps, id, k) {
        let k = choose|k: int| #[trigger] first_merch(temps, id, k);
        assert(temps[k].id == id);
        if first_merch(temps, id, i) {
            if i < k {
                assert(temps[i].id != id);
            } else if k < i {
                assert(temps[k].id != id);
            }
        }
    }
}

/// Holds of the merchandise the player may buy now.
pub open spec fn buyable(p: BattlePlayer, temps: Seq<MerchandiseTemp>) -> spec_fn(u32) -> bool {
    |m: u32| could_buy(p, m, temps)
}

/// The merchandise of robot configuration `robot_temp_id` the robot may buy
/// now, in configured order; none where the configuration is missing.
pub fn check_buy(
    battle_player: &BattlePlayer,
    robot_temp_id: u32,
    robot_temps: &Vec<RobotTemp>,
    temps: &Vec<MerchandiseTemp>,
) -> (r: Vec<u32>)
    ensures
        (forall|i: int| 0 <= i < robot_temps@.len() ==> #[trigger] robot_temps@[i].id != robot_temp_id) ==> r@.len() == 0,
        forall|i: int| 0 <= i < robot_temps@.len() && robot_temps@[i].id == robot_temp_id
            && (forall|j: int| 0 <= j < i ==> #[trigger] robot_temps@[j].id != robot_temp_id)
            ==> r@ == (#[trigger] robot_temps@[i]).merchandises@.filter(buyable(*battle_player, temps@)),
{
    let mut i: usize = 0;
    while i < robot_temps.len()
        invariant
            i <= robot_temps@.len(),
            forall|j: int| 0 <= j < i ==> #[trigger] robot_temps@[j].id != robot_temp_id,
        decreases robot_temps.len() - i,
    {
        if robot_temps[i].id == robot_temp_id {
            let ms = &robot_temps[i].merchandises;
            let mut res_v: Vec<u32> = Vec::new();
            let mut k: usize = 0;
            while k < ms.len()
                invariant
                    k <= ms@.len(),
                    res_v@ == ms@.take(k as int).filter(buyable(*battle_player, temps@)),
                decreases ms.len() - k,
            {
                let m = ms[k];
                proof {
                    assert(ms@.take(k + 1) == ms@.take(k as int).push(m));
                    ms@.take(k as int).lemma_filter_push(m, buyable(*battle_player, temps@));
                }
                if get_could_buy(battle_player, m, temps) {
                    res_v.push(m);
                }
                k = k + 1;
            }
            proof {
                assert(ms@.take(ms@.len() as int) == ms@);
                assert forall|a: int| 0 <= a < robot_temps@.len() && robot_temps@[a].id == robot_temp_id
                    && (forall|j: int| 0 <= j < a ==> #[trigger] robot_temps@[j].id != robot_temp_id)
                    implies a == i as int by {
                    if a < i {
                    } else if a > i {
                        assert(robot_temps@[i as int].id == robot_temp_id);
                    }
                }
            }
            return res_v;
        }
        i = i + 1;
    }
    Vec::new()
}

/// The character `c2` is `c` after merchandise of type code `code` and
/// value `v` acted on it: more attack (2), shorter cooldowns (3), more
/// energy (4).
pub open spec fn bought_cter(c: BattleCharacter, c2: BattleCharacter, code: u8, v: i32) -> bool {
    if code == 2 {
        &&& c2.base_attr == (BaseAttr { atk: (c.base_attr.atk + (v as u8)) as u8, ..c.base_attr })
        &&& c2.skills@ == c.skills@
        &&& c2.state == c.state
    } else if code == 3 {
        &&& c2.base_attr == c.base_attr
        &&& c2.state == c.state
        &&& c2.skills@.len() == c.skills@.len()
        &&& forall|i: int| 0 <= i < c.skills@.len() ==> {
            let (o, n) = (c.skills@[i], #[trigger] c2.skills@[i]);
            if o.is_active {
                n == o
            } else {
                n == (Skill { cd_times: clamped_cd(o.cd_times, cd_step(Some(v as i8)) as i8, o.skill_temp.cd) as i8, ..o })
            }
        }
    } else {
        &&& c2.base_attr == (BaseAttr {
            energy: energy_after(c.base_attr.energy, c.base_attr.max_energy, v as i8) as u8,
            ..c.base_attr
        })
        &&& c2.skills@ == c.skills@
        &&& c2.state == c.state
    }
}

/// What buying merchandise `t` demands of the buyer `p` beyond the gold and
/// the counts: for the kinds that act on the character acting now, that it
/// exists and its numbers stay in range.
pub open spec fn buy_effect_ready(p: BattlePlayer, t: MerchandiseTemp) -> bool {
    let code = t.effect_type;
    (code == 2 || code == 3 || code == 4) ==> {
        &&& has_cter(p.cters@, p.current_cter.0)
        &&& ({
            let c = p.cters@[choose|k: int| first_cter(p.cters@, p.current_cter.0, k)];
            &&& code == 2 ==> c.base_attr.atk + (t.effect_value as u8) <= u8::MAX
            &&& code == 3 ==> (t.effect_value as i8) > i8::MIN && forall|i: int| 0 <= i < c.skills@.len()
                ==> #[trigger] c.skills@[i].cd_times + cd_step(Some(t.effect_value as i8)) >= i8::MIN
            &&& code == 4 ==> c.base_attr.energy <= 127 && c.base_attr.max_energy <= 127
                && i8::MIN <= c.base_attr.energy + (t.effect_value as i8) <= i8::MAX
        })
    }
}

impl BattlePlayer {
    /// Pays for merchandise `t` and counts the purchase; merchandise that
    /// acts on the character acting now (attack, cooldowns, energy) does so.
    fn pay_and_apply(&mut self, t: MerchandiseTemp)
        requires
            t.price > i32::MIN,
            i32::MIN <= old(self).gold - t.price <= i32::MAX,
            count_of(old(self).merchandise_data.buy_map@, t.id, 0u8) < u8::MAX,
            count_of(old(self).merchandise_data.buy_history@, t.id, 0u16) < u16::MAX,
            buy_effect_ready(*old(self), t),
        ensures
            paid_player(*old(self), *final(self), t),
    {
        self.add_gold(-t.price);
        self.merchandise_data.add_buy_times(t.id);
        let ghost mid = *self;
        let code = t.effect_type;
        if code == 2 || code == 3 || code == 4 {
            proof {
                crate::battle_player::lemma_has_cter_first(mid.cters@, mid.current_cter.0);
            }
            let ghost k = choose|k: int| first_cter(mid.cters@, mid.current_cter.0, k);
            let c = self.get_current_cter_mut();
            proof {
                let i = choose|i: int| first_cter(mid.cters@, mid.current_cter.0, i) && *c == #[trigger] mid.cters@[i];
                if i < k {
                    assert(mid.cters@[i].base_attr.cter_id != mid.current_cter.0);
                } else if k < i {
                    assert(mid.cters@[k].base_attr.cter_id != mid.current_cter.0);
                }
            }
            if code == 2 {
                c.base_attr.atk = c.base_attr.atk + #[verifier::truncate] (t.effect_value as u8);
            } else if code == 3 {
                c.sub_skill_cd(Some(#[verifier::truncate] (t.effect_value as i8)));
            } else {
                c.add_energy(#[verifier::truncate] (t.effect_value as i8));
            }
        }
    }
}

/// `p1` is `p0` after paying for merchandise `t` (see `pay_and_apply`).
pub open spec fn paid_player(p0: BattlePlayer, p1: BattlePlayer, t: MerchandiseTemp) -> bool {
    let code = t.effect_type;
    &&& p1.gold == gold_after(p0.gold, (-t.price) as i32)
    &&& p1.merchandise_data.buy_map@ == p0.merchandise_data.buy_map@.insert(t.id,
        (count_of(p0.merchandise_data.buy_map@, t.id, 0u8) + 1) as u8)
    &&& p1.merchandise_data.buy_history@ == p0.merchandise_data.buy_history@.insert(t.id,
        (count_of(p0.merchandise_data.buy_history@, t.id, 0u16) + 1) as u16)
    &&& p1.user_id == p0.user_id
    &&& p1.status == p0.status
    &&& p1.current_cter == p0.current_cter
    &&& p1.mission_data == p0.mission_data
    &&& if code == 2 || code == 3 || code == 4 {
        exists|k: int| #[trigger] first_cter(p0.cters@, p0.current_cter.0, k)
            && p1.cters@ == p0.cters@.update(k, p1.cters@[k])
            && bought_cter(p0.cters@[k], p1.cters@[k], code, t.effect_value)
    } else {
        p1.cters@ == p0.cters@
    }
}

/// `p1` is `p` after gaining `hp`: where `p` is in the battle, the
/// character it acts with (see `healed_cter`); else nothing changes.
pub open spec fn healed_player(p: BattlePlayer, p1: BattlePlayer, hp: i16) -> bool {
    if player_alive(p) {
        exists|k: int| #[trigger] first_cter(p.cters@, p.current_cter.0, k)
            && p1 == (BattlePlayer { cters: p1.cters, ..p })
            && p1.cters@ == p.cters@.update(k, healed_cter(p.cters@[k], hp))
    } else {
        p1 == p
    }
}

/// `p1` is `p0` after buying merchandise `t`: paid for and counted (see
/// `paid_player`), then hp healed (type 1), or a mission `r` taken from
/// `temps` (type 5), or the character changed (types 2 to 4).
pub open spec fn buy_done(p0: BattlePlayer, p1: BattlePlayer, t: MerchandiseTemp, temps: Seq<MissionTemp>, r: Option<u32>) -> bool {
    let code = t.effect_type;
    if code == 1 {
        &&& r is None
        &&& exists|pm: BattlePlayer| #[trigger] paid_player(p0, pm, t) && healed_player(pm, p1, t.effect_value as i16)
    } else if code == 5 {
        &&& r is Some
        &&& exists|pm: BattlePlayer| #[trigger] paid_player(p0, pm, t)
            && p1 == (BattlePlayer { mission_data: p1.mission_data, ..pm })
            && mission_taken(pm.mission_data, p1.mission_data, temps, r.unwrap())
    } else {
        &&& r is None
        &&& paid_player(p0, p1, t)
    }
}

/// What buying merchandise `t` demands: the gold, the counts and the
/// character's numbers stay in range, and a mission can be given.
pub open spec fn buy_ready(bd: BattleData, user_id: u32, t: MerchandiseTemp, temps: Seq<MissionTemp>) -> bool {
    let p = player_of(bd.battle_player@, user_id);
    &&& t.price > i32::MIN
    &&& i32::MIN <= p.gold - t.price <= i32::MAX
    &&& count_of(p.merchandise_data.buy_map@, t.id, 0u8) < u8::MAX
    &&& count_of(p.merchandise_data.buy_history@, t.id, 0u16) < u16::MAX
    &&& 1 <= t.effect_type <= 5
    &&& buy_effect_ready(p, t)
    &&& t.effect_type == 1 && player_alive(p) ==> has_cter(p.cters@, p.current_cter.0)
        && i16::MIN <= current_cter_of(p).base_attr.hp + (t.effect_value as i16) <= i16::MAX
    &&& t.effect_type == 5 ==> player_mission_candidates(bd, user_id, temps).len() > 0
}

/// Player `user_id` buys merchandise `merchandise_id` (configured in
/// `temps`): pays, the purchase is counted, and the merchandise acts (see
/// `buy_done`); a mission comes from `no_condition`. Returns the id of the
/// mission given, if one was.
pub fn handler_buy(
    battle_data: &mut BattleData,
    user_id: u32,
    merchandise_id: u32,
    temps: &Vec<MerchandiseTemp>,
    no_condition: &Vec<MissionTemp>,
) -> (r: Option<u32>)
    requires
        has_player(old(battle_data).battle_player@, user_id),
        merch_of(temps@, merchandise_id) is Some,
        buy_ready(*old(battle_data), user_id, merch_of(temps@, merchandise_id).unwrap(), no_condition@),
    ensures
        exists|i: int| #[trigger] first_player(old(battle_data).battle_player@, user_id, i)
            && final(battle_data).battle_player@.len() == old(battle_data).battle_player@.len()
            && (forall|j: int| 0 <= j < old(battle_data).battle_player@.len() && j != i
                ==> #[trigger] final(battle_data).battle_player@[j] == old(battle_data).battle_player@[j])
            && buy_done(old(battle_data).battle_player@[i], final(battle_data).battle_player@[i],
                merch_of(temps@, merchandise_id).unwrap(), no_condition@, r),
        final(battle_data).tile_map == old(battle_data).tile_map,
{
    let t = match find_merchandise(temps, merchandise_id) {
        Some(t) => t,
        None => {
            assert(false);
            return None;
        },
    };
    let ghost old_ps = battle_data.battle_player@;
    let pos = match player_position(&battle_data.battle_player, user_id) {
        Some(i) => i,
        None => {
            assert(false);
            return None;
        },
    };
    proof {
        let q = choose|q: int| first_player(old_ps, user_id, q);
        crate::battle::lemma_first_player_unique(old_ps, user_id, pos as int, q);
    }
    let mut p = battle_data.battle_player.remove(pos);
    p.pay_and_apply(t);
    let ghost pm = p;
    battle_data.battle_player.insert(pos, p);
    let ghost mid_ps = battle_data.battle_player@;
    proof {
        assert(mid_ps =~= old_ps.update(pos as int, pm));
        assert forall|j: int| 0 <= j < mid_ps.len() implies #[trigger] mid_ps[j].user_id == old_ps[j].user_id by {}
        assert(first_player(mid_ps, user_id, pos as int));
        let q = choose|q: int| first_player(mid_ps, user_id, q);
        crate::battle::lemma_first_player_unique(mid_ps, user_id, pos as int, q);
        assert(player_of(mid_ps, user_id) == pm);
    }
    if t.effect_type == 1 {
        let _ = battle_data.add_hp(Some(user_id), user_id, #[verifier::truncate] (t.effect_value as i16), None);
        proof {
            let fin = battle_data.battle_player@;
            let hp = t.effect_value as i16;
            if player_alive(pm) {
                let (i, k) = choose|i: int, k: int| #[trigger] first_player(mid_ps, user_id, i)
                    && #[trigger] first_cter(pm.cters@, pm.current_cter.0, k)
                    && fin == mid_ps.update(i, BattlePlayer { cters: fin[i].cters, ..pm })
                    && fin[i].cters@ == pm.cters@.update(k, healed_cter(pm.cters@[k], hp));
                crate::battle::lemma_first_player_unique(mid_ps, user_id, pos as int, i);
                assert(healed_player(pm, fin[pos as int], hp));
            }
            assert(paid_player(old_ps[pos as int], pm, t));
        }
        None
    } else if t.effect_type == 5 {
        let id = random_mission(battle_data, user_id, no_condition);
        proof {
            let fin = battle_data.battle_player@;
            let i = choose|i: int| #[trigger] first_player(mid_ps, user_id, i)
                && fin == mid_ps.update(i, BattlePlayer { mission_data: fin[i].mission_data, ..mid_ps[i] })
                && mission_taken(mid_ps[i].mission_data, fin[i].mission_data, no_condition@, id);
            crate::battle::lemma_first_player_unique(mid_ps, user_id, pos as int, i);
            assert(paid_player(old_ps[pos as int], pm, t));
        }
        Some(id)
    } else {
        None
    }
}

/// Distinct variants of `MerchandisType` have distinct numbers, so the variant read
/// back from a variant's number is that variant.
pub proof fn law_merchandis_type_codes_distinct(a: MerchandisType, b: MerchandisType)
    ensures
        a.code() == b.code() ==> a == b,
{
}

} // verus!
