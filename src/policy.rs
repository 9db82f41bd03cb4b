//! The enemy's choice of action in battle, and how a turn's action changes
//! the combatants.
use vstd::prelude::*;
use crate::rng::draw_in;
use crate::stats::{EnemyStats, PlayerStats};
use rand::rngs::StdRng;

verus! {

/// What a combatant does on its turn.
#[derive(Clone, Copy, Debug, PartialEq, Eq, Structural)]
pub enum Action {
    PhysicalAttack,
    MagicAttack,
    Heal,
}

/// The base amount of every attack.
pub const BASE_DAMAGE: u32 = 5;

/// The base amount of every heal.
pub const BASE_HEAL: u32 = 4;

/// The heuristic's score for a physical attack by `actor` on `opponent`.
pub open spec fn physical_score(actor: EnemyStats, opponent: PlayerStats) -> int {
    let atk_diff = actor.physatk as int - actor.mgkatk as int;
    let def_diff = opponent.mdef as int - opponent.def as int;
    (if atk_diff > 0 { atk_diff / 2 } else { 0 }) + (if def_diff > 0 { def_diff / 2 } else { 0 })
        + finishing_bonus(opponent)
}

/// The heuristic's score for a magic attack by `actor` on `opponent`.
pub open spec fn magic_score(actor: EnemyStats, opponent: PlayerStats) -> int {
    let atk_diff = actor.physatk as int - actor.mgkatk as int;
    let def_diff = opponent.mdef as int - opponent.def as int;
    (if atk_diff < 0 { (-atk_diff) / 2 } else { 0 }) + (if def_diff < 0 { (-def_diff) / 2 } else { 0 })
        + finishing_bonus(opponent)
}

/// Both attacks gain 10 while the opponent is under 20% of its hit points.
pub open spec fn finishing_bonus(opponent: PlayerStats) -> int {
    if 10 * opponent.hp < 2 * opponent.max_hp { 10 } else { 0 }
}

/// The heuristic's score for healing: -999 at 90% of the actor's hit points
/// or more, 1 above 60%, 2 above 30%, and 6 otherwise.
pub open spec fn heal_score(actor: EnemyStats) -> int {
    if 10 * actor.hp >= 9 * actor.max_hp {
        -999
    } else if 10 * actor.hp > 6 * actor.max_hp {
        1
    } else if 10 * actor.hp > 3 * actor.max_hp {
        2
    } else {
        6
    }
}

/// The action with the highest score; ties go to the physical attack, then
/// the magic attack.
pub open spec fn heuristic_choice(actor: EnemyStats, opponent: PlayerStats) -> Action {
    let p = physical_score(actor, opponent);
    let m = magic_score(actor, opponent);
    let h = heal_score(actor);
    if p >= m && p >= h {
        Action::PhysicalAttack
    } else if m >= h {
        Action::MagicAttack
    } else {
        Action::Heal
    }
}

/// The action that a draw stands for under the random policy: its remainder
/// by 3, in the order physical attack, magic attack, heal.
pub open spec fn action_of_roll(roll: nat) -> Action {
    if roll % 3 == 0 {
        Action::PhysicalAttack
    } else if roll % 3 == 1 {
        Action::MagicAttack
    } else {
        Action::Heal
    }
}

/// The heuristic policy: `enemy` picks the action that `heuristic_choice`
/// scores highest against `player`.
pub fn ai_attack(player: &PlayerStats, enemy: &EnemyStats) -> (r: Action)
    ensures
        r == heuristic_choice(*enemy, *player),
        10 * enemy.hp >= 9 * enemy.max_hp ==> r != Action::Heal,
{
    let atk_diff: i64 = enemy.physatk as i64 - enemy.mgkatk as i64;
    let def_diff: i64 = player.mdef as i64 - player.def as i64;
    let mut phys: i64 = 0;
    let mut magic: i64 = 0;
    if atk_diff > 0 {
        phys = phys + atk_diff / 2;
    } else if atk_diff < 0 {
        magic = magic + (-atk_diff) / 2;
    }
    if def_diff > 0 {
        phys = phys + def_diff / 2;
    } else if def_diff < 0 {
        magic = magic + (-def_diff) / 2;
    }
    let hp = enemy.hp as u64;
    let max_hp = enemy.max_hp as u64;
    let heal_op: i64 = if 10 * hp >= 9 * max_hp {
        -999
    } else if 10 * hp > 6 * max_hp {
        1
    } else if 10 * hp > 3 * max_hp {
        2
    } else {
        6
    };
    if 10 * (player.hp as u64) < 2 * (player.max_hp as u64) {
        phys = phys + 10;
        magic = magic + 10;
    }
    if phys >= magic && phys >= heal_op {
        Action::PhysicalAttack
    } else if magic >= heal_op {
        Action::MagicAttack
    } else {
        Action::Heal
    }
}

/// The action for the draw `roll` under the random policy.
pub fn action_from_roll(roll: usize) -> (r: Action)
    ensures
        r == action_of_roll(roll as nat),
{
    if roll % 3 == 0 {
        Action::PhysicalAttack
    } else if roll % 3 == 1 {
        Action::MagicAttack
    } else {
        Action::Heal
    }
}

/// The random policy: a draw below 100, taken by its remainder by 3.
pub fn rand_attack(rng: &mut StdRng) -> (r: Action)
    ensures
        exists|roll: nat| roll < 100 && r == #[trigger] action_of_roll(roll),
{
    let roll = draw_in(rng, 0, 100);
    action_from_roll(roll)
}

/// The action of `enemy` against `player`: kind 1 acts at random, kind 2
/// follows the heuristic, and any other attacks physically.
pub fn choose_attack(player: &PlayerStats, enemy: &EnemyStats, rng: &mut StdRng) -> (r: Action)
    ensures
        enemy.etype == 1 ==> exists|roll: nat| roll < 100 && r == #[trigger] action_of_roll(roll),
        enemy.etype == 2 ==> r == heuristic_choice(*enemy, *player),
        enemy.etype != 1 && enemy.etype != 2 ==> r == Action::PhysicalAttack,
{
    match enemy.etype {
        1 => rand_attack(rng),
        2 => ai_attack(player, enemy),
        _ => Action::PhysicalAttack,
    }
}

} // verus!
