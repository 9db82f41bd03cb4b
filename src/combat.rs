//! Damage and healing: the formulas, and how hit points change under them.
//!
//! Fractions are computed exactly in integers and rounded to the nearest
//! whole point, halves up; amounts beyond `u32::MAX` are capped there.
use vstd::prelude::*;
use crate::rng::draw_in;
use rand::rngs::StdRng;

verus! {

/// `n / d` rounded to the nearest integer, halves up (`d` positive).
pub open spec fn round_div(n: nat, d: nat) -> nat {
    ((n + d / 2) / d) as nat
}

/// `n`, capped at `u32::MAX`.
pub open spec fn cap(n: nat) -> u32 {
    if n > u32::MAX { u32::MAX } else { n as u32 }
}

/// Physical damage: `base * (roll / 100) * (1 + atk / 10) * (1 + def / 20)`,
/// rounded, where the attack's draw `roll` lies in `75..125`. (The defence
/// term raises the damage: that is the rule as played.)
pub open spec fn physical_damage(base: u32, atk: u32, def: u32, roll: u32) -> u32 {
    cap(round_div((base * roll * (10 + atk) * (20 + def)) as nat, 20000))
}

/// Whether a magic attack lands: the draw `roll` (in `0..100`) is below
/// `(matk - mdef + 10) * 5 + 25`, computed over the integers.
pub open spec fn magic_hits(matk: u32, mdef: u32, roll: u32) -> bool {
    (roll as int) < (matk as int - mdef as int + 10) * 5 + 25
}

/// Magic damage: `base * (1 + matk / 10)`, rounded, when the attack lands;
/// nothing otherwise.
pub open spec fn magic_damage(base: u32, matk: u32, mdef: u32, roll: u32) -> u32 {
    if magic_hits(matk, mdef, roll) { heal_amount(base, matk) } else { 0 }
}

/// The amount healed: `base * (1 + matk / 10)`, rounded.
pub open spec fn heal_amount(base: u32, matk: u32) -> u32 {
    cap(round_div((base * (10 + matk)) as nat, 10))
}

/// Hit points after taking `amount` damage: never below zero.
pub open spec fn damaged(hp: u32, amount: u32) -> u32 {
    if amount >= hp { 0 } else { (hp - amount) as u32 }
}

/// Hit points after healing `amount`: never above `max_hp`.
pub open spec fn healed(hp: u32, max_hp: u32, amount: u32) -> u32 {
    if hp >= max_hp {
        hp
    } else if amount >= max_hp - hp {
        max_hp
    } else {
        (hp + amount) as u32
    }
}

/// A change to a combatant's hit points.
#[derive(Clone, Copy, Debug, PartialEq, Eq, Structural)]
pub enum HpChange {
    Damage(u32),
    Heal(u32),
}

pub open spec fn apply_change(hp: u32, max_hp: u32, ch: HpChange) -> u32 {
    match ch {
        HpChange::Damage(a) => damaged(hp, a),
        HpChange::Heal(a) => healed(hp, max_hp, a),
    }
}

/// Hit points after the changes `chs`, in order.
pub open spec fn apply_changes(hp: u32, max_hp: u32, chs: Seq<HpChange>) -> u32
    decreases chs.len(),
{
    if chs.len() == 0 {
        hp
    } else {
        apply_change(apply_changes(hp, max_hp, chs.drop_last()), max_hp, chs.last())
    }
}

/// Hit points stay within `0..=max_hp` through any sequence of damage and
/// healing that starts within it.
pub proof fn lemma_hp_stays_in_range(hp: u32, max_hp: u32, chs: Seq<HpChange>)
    requires
        hp <= max_hp,
    ensures
        0 <= apply_changes(hp, max_hp, chs) <= max_hp,
    decreases chs.len(),
{
    if chs.len() > 0 {
        lemma_hp_stays_in_range(hp, max_hp, chs.drop_last());
    }
}

/// `hp` after taking `amount` damage (saturating at zero).
pub fn take_damage(hp: u32, amount: u32) -> (r: u32)
    ensures
        r == damaged(hp, amount),
{
    hp.saturating_sub(amount)
}

/// `hp` after healing `amount`, clamped to `max_hp`.
pub fn restore(hp: u32, max_hp: u32, amount: u32) -> (r: u32)
    requires
        hp <= max_hp,
    ensures
        r == healed(hp, max_hp, amount),
{
    if amount >= max_hp - hp {
        max_hp
    } else {
        hp + amount
    }
}

/// `hp` after the change `ch`.
pub fn change_hp(hp: u32, max_hp: u32, ch: HpChange) -> (r: u32)
    requires
        hp <= max_hp,
    ensures
        r == apply_change(hp, max_hp, ch),
        r <= max_hp,
{
    match ch {
        HpChange::Damage(a) => take_damage(hp, a),
        HpChange::Heal(a) => restore(hp, max_hp, a),
    }
}

fn cap_u128(n: u128) -> (r: u32)
    ensures
        r == cap(n as nat),
{
    if n > 0xffff_ffff {
        0xffff_ffff
    } else {
        n as u32
    }
}

/// Physical damage for the draw `roll` (see `physical_damage`).
pub fn physical_damage_for_roll(base: u32, atk: u32, def: u32, roll: u32) -> (r: u32)
    requires
        75 <= roll < 125,
    ensures
        r == physical_damage(base, atk, def, roll),
{
    let b = base as u128;
    let r = roll as u128;
    let a = 10 + atk as u128;
    let d = 20 + def as u128;
    proof {
        assert(b * r <= 0xffff_ffff * 125) by (nonlinear_arith)
            requires b <= 0xffff_ffff, r < 125;
        assert((b * r) * a <= (0xffff_ffff * 125) * (0xffff_ffff + 10)) by (nonlinear_arith)
            requires b * r <= 0xffff_ffff * 125, a <= 0xffff_ffff + 10, 0 <= b * r;
        assert((b * r) * a <= 0x7d_0000_03e7_ffff_fb9b);
        assert(((b * r) * a) * d <= 0x7d_0000_03e7_ffff_fb9b * (0xffff_ffff + 20)) by (nonlinear_arith)
            requires (b * r) * a <= 0x7d_0000_03e7_ffff_fb9b, d <= 0xffff_ffff + 20, 0 <= (b * r) * a;
        assert(0x7d_0000_03e7_ffff_fb9b * (0xffff_ffff + 20) == 0x7d00_000d_2f00_0045_d2ff_ffac_81);
    }
    let x = b * r;
    let y = x * a;
    let z = y * d;
    cap_u128((z + 10000) / 20000)
}

/// The amount healed (see `heal_amount`).
pub fn heal(base: u32, matk: u32) -> (r: u32)
    ensures
        r == heal_amount(base, matk),
{
    let b = base as u128;
    let m = 10 + matk as u128;
    proof {
        assert(b * m <= 0xffff_ffff * (0xffff_ffff + 10)) by (nonlinear_arith)
            requires b <= 0xffff_ffff, m <= 0xffff_ffff + 10;
    }
    let x = b * m;
    cap_u128((x + 5) / 10)
}

/// Magic damage for the draw `roll` (see `magic_damage`).
pub fn magic_damage_for_roll(base: u32, matk: u32, mdef: u32, roll: u32) -> (r: u32)
    requires
        roll < 100,
    ensures
        r == magic_damage(base, matk, mdef, roll),
{
    let contest: i64 = (matk as i64 - mdef as i64 + 10) * 5 + 25;
    if (roll as i64) < contest {
        heal(base, matk)
    } else {
        0
    }
}

/// Physical damage with a fresh draw from `rng`.
pub fn physical_attack(base: u32, atk: u32, def: u32, rng: &mut StdRng) -> (r: u32)
    ensures
        exists|roll: u32| 75 <= roll < 125 && r == #[trigger] physical_damage(base, atk, def, roll),
{
    let roll = draw_in(rng, 75, 125) as u32;
    physical_damage_for_roll(base, atk, def, roll)
}

/// Magic damage with a fresh draw from `rng`.
pub fn magic_attack(base: u32, matk: u32, mdef: u32, rng: &mut StdRng) -> (r: u32)
    ensures
        exists|roll: u32| roll < 100 && r == #[trigger] magic_damage(base, matk, mdef, roll),
{
    let roll = draw_in(rng, 0, 100) as u32;
    magic_damage_for_roll(base, matk, mdef, roll)
}

} // verus!
