//! One turn of battle: the action taken and its effect on hit points.
use vstd::prelude::*;
use crate::combat::{
    damaged, heal, heal_amount, healed, magic_attack, magic_damage, physical_attack,
    physical_damage, restore, take_damage,
};
use crate::policy::{action_of_roll, choose_attack, heuristic_choice, Action, BASE_DAMAGE, BASE_HEAL};
use crate::stats::{EnemyStats, PlayerStats};
use rand::rngs::StdRng;

verus! {

/// The effect of `action` by an attacker with attack `atk` and magic attack
/// `matk` on a defender with defence `def` and magic defence `mdef`: `amount`
/// is the damage dealt, or the amount healed, for some draw the formulas allow.
pub open spec fn amount_allowed(action: Action, atk: u32, matk: u32, heal_matk: u32, def: u32, mdef: u32, amount: u32) -> bool {
    match action {
        Action::PhysicalAttack => exists|roll: u32| 75 <= roll < 125 && amount == #[trigger] physical_damage(BASE_DAMAGE, atk, def, roll),
        Action::MagicAttack => exists|roll: u32| roll < 100 && amount == #[trigger] magic_damage(BASE_DAMAGE, matk, mdef, roll),
        Action::Heal => amount == heal_amount(BASE_HEAL, heal_matk),
    }
}

/// The enemy's turn: it chooses an action (`choose_attack`) and carries it
/// out. An attack takes the damage off the player's hit points (never below
/// zero); a heal adds to the enemy's (never above its maximum). Returns the
/// action and the amount.
pub fn enemy_attack(player: &mut PlayerStats, enemy: &mut EnemyStats, rng: &mut StdRng) -> (r: (Action, u32))
    requires
        old(enemy).hp <= old(enemy).max_hp,
    ensures
        old(enemy).etype == 1 ==> exists|roll: nat| roll < 100 && r.0 == #[trigger] action_of_roll(roll),
        old(enemy).etype == 2 ==> r.0 == heuristic_choice(*old(enemy), *old(player)),
        old(enemy).etype != 1 && old(enemy).etype != 2 ==> r.0 == Action::PhysicalAttack,
        amount_allowed(r.0, old(enemy).physatk, old(enemy).mgkatk, old(enemy).mgkatk, old(player).def, old(player).mdef, r.1),
        r.0 != Action::Heal ==> *final(player) == (PlayerStats { hp: damaged(old(player).hp, r.1), ..*old(player) }),
        r.0 != Action::Heal ==> *final(enemy) == *old(enemy),
        r.0 == Action::Heal ==> *final(enemy) == (EnemyStats { hp: healed(old(enemy).hp, old(enemy).max_hp, r.1), ..*old(enemy) }),
        r.0 == Action::Heal ==> *final(player) == *old(player),
        final(enemy).hp <= final(enemy).max_hp,
{
    let action = choose_attack(player, enemy, rng);
    match action {
        Action::PhysicalAttack => {
            let dmg = physical_attack(BASE_DAMAGE, enemy.physatk, player.def, rng);
            player.hp = take_damage(player.hp, dmg);
            (action, dmg)
        },
        Action::MagicAttack => {
            let dmg = magic_attack(BASE_DAMAGE, enemy.mgkatk, player.mdef, rng);
            player.hp = take_damage(player.hp, dmg);
            (action, dmg)
        },
        Action::Heal => {
            let amount = heal(BASE_HEAL, enemy.mgkatk);
            enemy.hp = restore(enemy.hp, enemy.max_hp, amount);
            (action, amount)
        },
    }
}

/// The player's turn with the chosen `action`. An attack takes the damage
/// off the enemy's hit points (never below zero); a heal, whose strength
/// follows the player's `magic`, adds to the player's (never above the
/// maximum). Returns the amount.
pub fn player_action(action: Action, player: &mut PlayerStats, enemy: &mut EnemyStats, rng: &mut StdRng) -> (r: u32)
    requires
        old(player).hp <= old(player).max_hp,
    ensures
        amount_allowed(action, old(player).atk, old(player).matk, old(player).magic, old(enemy).physdef, old(enemy).mgkdef, r),
        action != Action::Heal ==> *final(enemy) == (EnemyStats { hp: damaged(old(enemy).hp, r), ..*old(enemy) }),
        action != Action::Heal ==> *final(player) == *old(player),
        action == Action::Heal ==> *final(player) == (PlayerStats { hp: healed(old(player).hp, old(player).max_hp, r), ..*old(player) }),
        action == Action::Heal ==> *final(enemy) == *old(enemy),
        final(player).hp <= final(player).max_hp,
{
    match action {
        Action::PhysicalAttack => {
            let dmg = physical_attack(BASE_DAMAGE, player.atk, enemy.physdef, rng);
            enemy.hp = take_damage(enemy.hp, dmg);
            dmg
        },
        Action::MagicAttack => {
            let dmg = magic_attack(BASE_DAMAGE, player.matk, enemy.mgkdef, rng);
            enemy.hp = take_damage(enemy.hp, dmg);
            dmg
        },
        Action::Heal => {
            let amount = heal(BASE_HEAL, player.magic);
            player.hp = restore(player.hp, player.max_hp, amount);
            amount
        },
    }
}

} // verus!
