//! The lookahead policy: each of the enemy's three actions is scored by
//! simulating up to ten rounds in which the player makes a predicted move and
//! the enemy tries all three actions, averaging the outcomes.
//!
//! A finished simulation scores 1 when the player has fallen, 0 when the
//! enemy has, and otherwise `1/2 - (p / P) / 2 + (e / E) / 2` for hit points
//! `p` of `P` and `e` of `E`. Scores are kept exactly as numerators over
//! `2 P E`; an average of three is kept as their sum, one level up scaling
//! by three, so that no division is needed.
use vstd::prelude::*;
use crate::combat::{
    damaged, heal, heal_amount, healed, magic_damage, magic_damage_for_roll, physical_damage,
    physical_damage_for_roll, restore, take_damage,
};
use crate::policy::{Action, BASE_DAMAGE, BASE_HEAL};
use crate::rng::draw_in;
use crate::stats::{EnemyStats, PlayerStats};
use rand::rngs::StdRng;

verus! {

/// The most rounds a simulation looks ahead.
pub const LOOKAHEAD_ROUNDS: u32 = 10;

pub open spec fn pow3(n: nat) -> nat
    decreases n,
{
    if n == 0 { 1 } else { 3 * pow3((n - 1) as nat) }
}

/// The numerator, over `2 P E`, of the score of a simulation that stops
/// with the player at `p` of `P` hit points and the enemy at `e` of `E`.
pub open spec fn partial_score(p: nat, e: nat, pmax: nat, emax: nat) -> nat {
    (pmax * emax - p * emax + e * pmax) as nat
}

/// The scale of a score found `rounds` rounds deep: a score there counts
/// `pow3(9 - rounds)` times, the number of its siblings' leaves at depth ten.
pub open spec fn scale(rounds: nat) -> nat {
    pow3((LOOKAHEAD_ROUNDS - 1 - rounds) as nat)
}

/// The action `pick_best` takes for the scores of a physical attack, a magic
/// attack and a heal: an attack must beat both others to be taken, the magic
/// attack then needs only to beat the heal, and otherwise the enemy heals.
pub open spec fn best_action(phys: int, magic: int, heal: int) -> Action {
    if phys > magic && phys > heal {
        Action::PhysicalAttack
    } else if magic > heal {
        Action::MagicAttack
    } else {
        Action::Heal
    }
}

proof fn lemma_pow3_mono(a: nat, b: nat)
    requires
        a <= b,
    ensures
        1 <= pow3(a) <= pow3(b),
    decreases b,
{
    if a < b {
        lemma_pow3_mono(a, (b - 1) as nat);
    } else if a > 0 {
        lemma_pow3_mono((a - 1) as nat, (a - 1) as nat);
    }
}

proof fn lemma_pow3_bound(n: nat)
    requires
        n <= 9,
    ensures
        1 <= pow3(n) <= 19683,
{
    lemma_pow3_mono(n, 9);
    reveal_with_fuel(pow3, 10);
    assert(pow3(9) == 19683);
}

fn pow3_exec(n: u32) -> (r: u128)
    requires
        n <= 9,
    ensures
        r == pow3(n as nat),
{
    let mut r: u128 = 1;
    let mut k: u32 = 0;
    while k < n
        invariant
            k <= n <= 9,
            r == pow3(k as nat),
        decreases n - k,
    {
        proof {
            lemma_pow3_bound(k as nat);
        }
        r = r * 3;
        k = k + 1;
    }
    r
}

/// The enemy's predicted opponent always attacks physically.
pub fn player_predictor() -> (r: Action)
    ensures
        r == Action::PhysicalAttack,
{
    Action::PhysicalAttack
}

/// The action with the best score (see `best_action`).
pub fn pick_best(phys: u128, magic: u128, heal: u128) -> (r: Action)
    ensures
        r == best_action(phys as int, magic as int, heal as int),
{
    if phys > magic && phys > heal {
        Action::PhysicalAttack
    } else if magic > heal {
        Action::MagicAttack
    } else {
        Action::Heal
    }
}

/// The score numerator (see `partial_score`) of a stopped simulation.
pub fn partial_score_exec(p: u32, e: u32, pmax: u32, emax: u32) -> (r: u128)
    requires
        p <= pmax,
        e <= emax,
    ensures
        r == partial_score(p as nat, e as nat, pmax as nat, emax as nat),
        r <= 2 * pmax * emax,
{
    let (p, e, pm, em) = (p as u128, e as u128, pmax as u128, emax as u128);
    proof {
        assert(p * em <= pm * em) by (nonlinear_arith) requires p <= pm;
        assert(e * pm <= em * pm) by (nonlinear_arith) requires e <= em;
        assert(pm * em <= 0xffff_ffff * 0xffff_ffff) by (nonlinear_arith) requires pm <= 0xffff_ffff, em <= 0xffff_ffff;
        assert(em * pm == pm * em) by (nonlinear_arith);
        assert(2 * pmax * emax == 2 * (pm * em)) by (nonlinear_arith) requires pm == pmax, em == emax;
    }
    pm * em - p * em + e * pm
}

/// The fixed statistics of a simulated fight.
#[derive(Clone, Copy, Debug, PartialEq, Eq, Structural)]
pub struct Duel {
    pub playermaxhp: u32,
    pub enemymaxhp: u32,
    pub playeratk: u32,
    pub enemyatk: u32,
    pub playerdef: u32,
    pub enemydef: u32,
    pub playermatk: u32,
    pub enemymatk: u32,
    pub playermdef: u32,
    pub enemymdef: u32,
}

/// The draws one simulated position takes, shaped as the simulation: a
/// position that ends it takes none; any other takes one for the player's
/// predicted move (unused when that move is a heal), one for the enemy's
/// physical attack before its branch, one for its magic attack before its
/// branch, and then those of the heal branch.
pub enum DrawTree {
    Stop,
    Round {
        predicted: u32,
        phys_roll: u32,
        phys: Box<DrawTree>,
        magic_roll: u32,
        magic: Box<DrawTree>,
        heal: Box<DrawTree>,
    },
}

/// Whether a draw is one that `move` could take: `75..125` for a physical
/// attack, `0..100` for a magic attack, anything for a heal.
pub open spec fn roll_fits(move_: Action, roll: u32) -> bool {
    match move_ {
        Action::PhysicalAttack => 75 <= roll < 125,
        Action::MagicAttack => roll < 100,
        Action::Heal => true,
    }
}

/// Every draw of `t` lies in its range, the predicted move's draws as
/// `predicted` needs them.
pub open spec fn tree_fits(t: DrawTree, predicted: Action) -> bool
    decreases t,
{
    match t {
        DrawTree::Stop => true,
        DrawTree::Round { predicted: x, phys_roll, phys, magic_roll, magic, heal } => {
            &&& roll_fits(predicted, x)
            &&& 75 <= phys_roll < 125
            &&& magic_roll < 100
            &&& tree_fits(*phys, predicted)
            &&& tree_fits(*magic, predicted)
            &&& tree_fits(*heal, predicted)
        },
    }
}

/// Hit points `(player, enemy)` after the player's move `move_` with draw `roll`.
pub open spec fn after_player_move(p: u32, e: u32, d: Duel, move_: Action, roll: u32) -> (u32, u32) {
    match move_ {
        Action::PhysicalAttack => (p, damaged(e, physical_damage(BASE_DAMAGE, d.playeratk, d.enemydef, roll))),
        Action::MagicAttack => (p, damaged(e, magic_damage(BASE_DAMAGE, d.playermatk, d.enemymdef, roll))),
        Action::Heal => (healed(p, d.playermaxhp, heal_amount(BASE_HEAL, d.playermatk)), e),
    }
}

/// The score (over `2 P E`, scaled by `scale(rounds)`) of the position with
/// player and enemy hit points `p` and `e`, `rounds` rounds in, for the draws
/// `t`: a fallen player scores the whole scale, a fallen enemy nothing, the
/// last round `partial_score`, and any other position the sum of its three
/// branches after the player's predicted move (each branch one of the
/// enemy's actions).
pub open spec fn sim(rounds: nat, p: u32, e: u32, d: Duel, predicted: Action, t: DrawTree) -> nat
    decreases t,
{
    if p == 0 {
        (2 * d.playermaxhp * d.enemymaxhp * scale(rounds)) as nat
    } else if e == 0 {
        0
    } else if rounds + 1 >= LOOKAHEAD_ROUNDS {
        partial_score(p as nat, e as nat, d.playermaxhp as nat, d.enemymaxhp as nat)
    } else {
        match t {
            DrawTree::Stop => 0,
            DrawTree::Round { predicted: x, phys_roll, phys, magic_roll, magic, heal } => {
                let (p1, e1) = after_player_move(p, e, d, predicted, x);
                sim(rounds + 1, damaged(p1, physical_damage(BASE_DAMAGE, d.enemyatk, d.playerdef, phys_roll)), e1, d, predicted, *phys)
                    + sim(rounds + 1, damaged(p1, magic_damage(BASE_DAMAGE, d.enemymatk, d.playermdef, magic_roll)), e1, d, predicted, *magic)
                    + sim(rounds + 1, p1, healed(e1, d.enemymaxhp, heal_amount(BASE_HEAL, d.enemymatk)), d, predicted, *heal)
            },
        }
    }
}

/// The draws `t` are exactly those the simulation of the position takes: it
/// stops where the simulation stops, goes on where it goes on, and each draw
/// lies in its range.
pub open spec fn fits_at(rounds: nat, p: u32, e: u32, d: Duel, predicted: Action, t: DrawTree) -> bool
    decreases t,
{
    if p == 0 || e == 0 || rounds + 1 >= LOOKAHEAD_ROUNDS {
        t is Stop
    } else {
        match t {
            DrawTree::Stop => false,
            DrawTree::Round { predicted: x, phys_roll, phys, magic_roll, magic, heal } => {
                let (p1, e1) = after_player_move(p, e, d, predicted, x);
                &&& roll_fits(predicted, x)
                &&& 75 <= phys_roll < 125
                &&& magic_roll < 100
                &&& fits_at(rounds + 1, damaged(p1, physical_damage(BASE_DAMAGE, d.enemyatk, d.playerdef, phys_roll)), e1, d, predicted, *phys)
                &&& fits_at(rounds + 1, damaged(p1, magic_damage(BASE_DAMAGE, d.enemymatk, d.playermdef, magic_roll)), e1, d, predicted, *magic)
                &&& fits_at(rounds + 1, p1, healed(e1, d.enemymaxhp, heal_amount(BASE_HEAL, d.enemymatk)), d, predicted, *heal)
            },
        }
    }
}

/// The draws of one lookahead decision: one for each of the enemy's two
/// attacks, and the draws of the three simulations.
pub struct LookaheadDraws {
    pub phys_roll: u32,
    pub phys: DrawTree,
    pub magic_roll: u32,
    pub magic: DrawTree,
    pub heal: DrawTree,
}

pub open spec fn duel_of(player: PlayerStats, enemy: EnemyStats) -> Duel {
    Duel {
        playermaxhp: player.max_hp,
        enemymaxhp: enemy.max_hp,
        playeratk: player.atk,
        enemyatk: enemy.physatk,
        playerdef: player.def,
        enemydef: enemy.physdef,
        playermatk: player.matk,
        enemymatk: enemy.mgkatk,
        playermdef: player.mdef,
        enemymdef: enemy.mgkdef,
    }
}

/// Every draw of `dr` lies in its range.
pub open spec fn draws_fit(dr: LookaheadDraws) -> bool {
    &&& 75 <= dr.phys_roll < 125
    &&& dr.magic_roll < 100
    &&& tree_fits(dr.phys, Action::PhysicalAttack)
    &&& tree_fits(dr.magic, Action::PhysicalAttack)
    &&& tree_fits(dr.heal, Action::PhysicalAttack)
}

/// `dr` holds exactly the draws that the lookahead for `player` and `enemy`
/// takes, each in its range.
pub open spec fn draws_complete(player: PlayerStats, enemy: EnemyStats, dr: LookaheadDraws) -> bool {
    let d = duel_of(player, enemy);
    let pred = Action::PhysicalAttack;
    &&& 75 <= dr.phys_roll < 125
    &&& dr.magic_roll < 100
    &&& fits_at(0, damaged(player.hp, physical_damage(BASE_DAMAGE, enemy.physatk, player.def, dr.phys_roll)), enemy.hp, d, pred, dr.phys)
    &&& fits_at(0, damaged(player.hp, magic_damage(BASE_DAMAGE, enemy.mgkatk, player.mdef, dr.magic_roll)), enemy.hp, d, pred, dr.magic)
    &&& fits_at(0, player.hp, healed(enemy.hp, enemy.max_hp, heal_amount(BASE_HEAL, enemy.mgkatk)), d, pred, dr.heal)
}

/// The lookahead's choice for the draws `dr`: each action of `enemy` is
/// tried once against `player`, each outcome simulated (the player always
/// predicted to attack physically), and `best_action` takes the scores.
pub open spec fn lookahead_choice(player: PlayerStats, enemy: EnemyStats, dr: LookaheadDraws) -> Action {
    let d = duel_of(player, enemy);
    let pred = Action::PhysicalAttack;
    best_action(
        sim(0, damaged(player.hp, physical_damage(BASE_DAMAGE, enemy.physatk, player.def, dr.phys_roll)), enemy.hp, d, pred, dr.phys) as int,
        sim(0, damaged(player.hp, magic_damage(BASE_DAMAGE, enemy.mgkatk, player.mdef, dr.magic_roll)), enemy.hp, d, pred, dr.magic) as int,
        sim(0, player.hp, healed(enemy.hp, enemy.max_hp, heal_amount(BASE_HEAL, enemy.mgkatk)), d, pred, dr.heal) as int,
    )
}

/// The same draws give the same choice: the lookahead depends on the two
/// combatants and its draws alone.
pub proof fn lemma_same_draws_same_choice(player: PlayerStats, enemy: EnemyStats, a: LookaheadDraws, b: LookaheadDraws)
    requires
        a == b,
    ensures
        lookahead_choice(player, enemy, a) == lookahead_choice(player, enemy, b),
{
}

/// `simulate`, returning also the draws it took.
fn simulate(rounds: u32, p: u32, e: u32, d: &Duel, predicted: Action, rng: &mut StdRng) -> (r: (u128, Ghost<DrawTree>))
    requires
        rounds < LOOKAHEAD_ROUNDS,
        p <= d.playermaxhp,
        e <= d.enemymaxhp,
    ensures
        r.0 == sim(rounds as nat, p, e, *d, predicted, r.1@),
        fits_at(rounds as nat, p, e, *d, predicted, r.1@),
        r.0 <= 2 * d.playermaxhp * d.enemymaxhp * scale(rounds as nat),
    decreases LOOKAHEAD_ROUNDS - rounds,
{
    let ghost dd: int = 2 * d.playermaxhp * d.enemymaxhp;
    let sc = pow3_exec(LOOKAHEAD_ROUNDS - 1 - rounds);
    proof {
        lemma_pow3_bound((LOOKAHEAD_ROUNDS - 1 - rounds) as nat);
        assert(dd <= 2 * 0xffff_ffff * 0xffff_ffff) by (nonlinear_arith)
            requires dd == 2 * d.playermaxhp * d.enemymaxhp, d.playermaxhp <= 0xffff_ffff, d.enemymaxhp <= 0xffff_ffff;
        assert(dd * sc <= 2 * 0xffff_ffff * 0xffff_ffff * 19683) by (nonlinear_arith)
            requires dd <= 2 * 0xffff_ffff * 0xffff_ffff, sc <= 19683;
    }
    if p == 0 {
        return (2 * (d.playermaxhp as u128) * (d.enemymaxhp as u128) * sc, Ghost(DrawTree::Stop));
    }
    if e == 0 {
        return (0, Ghost(DrawTree::Stop));
    }
    if rounds + 1 >= LOOKAHEAD_ROUNDS {
        proof {
            assert(scale(rounds as nat) == 1);
            assert(dd * scale(rounds as nat) == dd) by (nonlinear_arith) requires scale(rounds as nat) == 1;
        }
        return (partial_score_exec(p, e, d.playermaxhp, d.enemymaxhp), Ghost(DrawTree::Stop));
    }
    // The player's predicted move.
    let mut p1 = p;
    let mut e1 = e;
    let mut x: u32 = 0;
    match predicted {
        Action::PhysicalAttack => {
            x = draw_in(rng, 75, 125) as u32;
            e1 = take_damage(e, physical_damage_for_roll(BASE_DAMAGE, d.playeratk, d.enemydef, x));
        },
        Action::MagicAttack => {
            x = draw_in(rng, 0, 100) as u32;
            e1 = take_damage(e, magic_damage_for_roll(BASE_DAMAGE, d.playermatk, d.enemymdef, x));
        },
        Action::Heal => {
            p1 = restore(p, d.playermaxhp, heal(BASE_HEAL, d.playermatk));
        },
    }
    assert((p1, e1) == after_player_move(p, e, *d, predicted, x));
    // The enemy's three answers.
    let a = draw_in(rng, 75, 125) as u32;
    let p_phys = take_damage(p1, physical_damage_for_roll(BASE_DAMAGE, d.enemyatk, d.playerdef, a));
    let (phys, t_phys) = simulate(rounds + 1, p_phys, e1, d, predicted, rng);
    let b = draw_in(rng, 0, 100) as u32;
    let p_magic = take_damage(p1, magic_damage_for_roll(BASE_DAMAGE, d.enemymatk, d.playermdef, b));
    let (magic, t_magic) = simulate(rounds + 1, p_magic, e1, d, predicted, rng);
    let e_heal = restore(e1, d.enemymaxhp, heal(BASE_HEAL, d.enemymatk));
    let (healed_score, t_heal) = simulate(rounds + 1, p1, e_heal, d, predicted, rng);
    let ghost t = DrawTree::Round {
        predicted: x,
        phys_roll: a,
        phys: Box::new(t_phys@),
        magic_roll: b,
        magic: Box::new(t_magic@),
        heal: Box::new(t_heal@),
    };
    proof {
        let child = scale((rounds + 1) as nat);
        assert(scale(rounds as nat) == 3 * child);
        lemma_pow3_bound((LOOKAHEAD_ROUNDS - 1 - (rounds + 1)) as nat);
        assert(dd * scale(rounds as nat) == 3 * (dd * child)) by (nonlinear_arith)
            requires scale(rounds as nat) == 3 * child;
    }
    (phys + magic + healed_score, Ghost(t))
}

/// The score, scaled by `scale(rounds)` and over `2 P E`, of the position
/// where the player has `playerhp` and the enemy `enemyhp` hit points,
/// `rounds` rounds into the simulation, with the player's moves predicted as
/// `predicted`: `sim` of the draws taken from `rng`.
pub fn recursive(
    rounds: u32,
    playerhp: u32,
    enemyhp: u32,
    playermaxhp: u32,
    enemymaxhp: u32,
    playeratk: u32,
    enemyatk: u32,
    playerdef: u32,
    enemydef: u32,
    playermatk: u32,
    enemymatk: u32,
    playermdef: u32,
    enemymdef: u32,
    predicted: Action,
    rng: &mut StdRng,
) -> (r: u128)
    requires
        rounds < LOOKAHEAD_ROUNDS,
        playerhp <= playermaxhp,
        enemyhp <= enemymaxhp,
    ensures
        exists|t: DrawTree| #[trigger] fits_at(rounds as nat, playerhp, enemyhp, (Duel {
            playermaxhp, enemymaxhp, playeratk, enemyatk, playerdef, enemydef, playermatk, enemymatk, playermdef, enemymdef,
        }), predicted, t) && r == sim(rounds as nat, playerhp, enemyhp, (Duel {
            playermaxhp, enemymaxhp, playeratk, enemyatk, playerdef, enemydef, playermatk, enemymatk, playermdef, enemymdef,
        }), predicted, t),
        playerhp == 0 ==> r == 2 * playermaxhp * enemymaxhp * scale(rounds as nat),
        playerhp != 0 && enemyhp == 0 ==> r == 0,
        playerhp != 0 && enemyhp != 0 && rounds + 1 == LOOKAHEAD_ROUNDS
            ==> r == partial_score(playerhp as nat, enemyhp as nat, playermaxhp as nat, enemymaxhp as nat),
        r <= 2 * playermaxhp * enemymaxhp * scale(rounds as nat),
{
    let d = Duel {
        playermaxhp, enemymaxhp, playeratk, enemyatk, playerdef, enemydef, playermatk, enemymatk, playermdef, enemymdef,
    };
    let (r, t) = simulate(rounds, playerhp, enemyhp, &d, predicted, rng);
    proof {
        assert(fits_at(rounds as nat, playerhp, enemyhp, d, predicted, t@) && r == sim(rounds as nat, playerhp, enemyhp, d, predicted, t@));
    }
    r
}

/// The lookahead policy: `enemy` scores each of its actions against
/// `player` by simulation, with the player's moves from `player_predictor`,
/// and takes the best: `lookahead_choice` of the draws taken from `rng`.
/// Against a fallen player every action scores the same, so the enemy heals.
#[allow(non_snake_case)]
pub fn chooseMove(player: &PlayerStats, enemy: &EnemyStats, rng: &mut StdRng) -> (r: Action)
    requires
        player.hp <= player.max_hp,
        enemy.hp <= enemy.max_hp,
    ensures
        exists|dr: LookaheadDraws| #[trigger] draws_complete(*player, *enemy, dr) && r == lookahead_choice(*player, *enemy, dr),
        player.hp == 0 ==> r == Action::Heal,
{
    let predicted = player_predictor();
    let d = Duel {
        playermaxhp: player.max_hp,
        enemymaxhp: enemy.max_hp,
        playeratk: player.atk,
        enemyatk: enemy.physatk,
        playerdef: player.def,
        enemydef: enemy.physdef,
        playermatk: player.matk,
        enemymatk: enemy.mgkatk,
        playermdef: player.mdef,
        enemymdef: enemy.mgkdef,
    };
    let a = draw_in(rng, 75, 125) as u32;
    let p_phys = take_damage(player.hp, physical_damage_for_roll(BASE_DAMAGE, enemy.physatk, player.def, a));
    let (phys, t_phys) = simulate(0, p_phys, enemy.hp, &d, predicted, rng);
    let b = draw_in(rng, 0, 100) as u32;
    let p_magic = take_damage(player.hp, magic_damage_for_roll(BASE_DAMAGE, enemy.mgkatk, player.mdef, b));
    let (magic, t_magic) = simulate(0, p_magic, enemy.hp, &d, predicted, rng);
    let e_heal = restore(enemy.hp, enemy.max_hp, heal(BASE_HEAL, enemy.mgkatk));
    let (healed_score, t_heal) = simulate(0, player.hp, e_heal, &d, predicted, rng);
    let r = pick_best(phys, magic, healed_score);
    proof {
        let dr = LookaheadDraws { phys_roll: a, phys: t_phys@, magic_roll: b, magic: t_magic@, heal: t_heal@ };
        assert(d == duel_of(*player, *enemy));
        assert(draws_complete(*player, *enemy, dr));
        assert(r == lookahead_choice(*player, *enemy, dr));
    }
    r
}

/// `sim` of the given draws `t`: the simulation with its draws as an
/// argument.
pub fn score_with_draws(rounds: u32, p: u32, e: u32, d: &Duel, predicted: Action, t: &DrawTree) -> (r: u128)
    requires
        rounds < LOOKAHEAD_ROUNDS,
        p <= d.playermaxhp,
        e <= d.enemymaxhp,
        tree_fits(*t, predicted),
    ensures
        r == sim(rounds as nat, p, e, *d, predicted, *t),
        r <= 2 * d.playermaxhp * d.enemymaxhp * scale(rounds as nat),
    decreases LOOKAHEAD_ROUNDS - rounds,
{
    let ghost dd: int = 2 * d.playermaxhp * d.enemymaxhp;
    let sc = pow3_exec(LOOKAHEAD_ROUNDS - 1 - rounds);
    proof {
        lemma_pow3_bound((LOOKAHEAD_ROUNDS - 1 - rounds) as nat);
        assert(dd <= 2 * 0xffff_ffff * 0xffff_ffff) by (nonlinear_arith)
            requires dd == 2 * d.playermaxhp * d.enemymaxhp, d.playermaxhp <= 0xffff_ffff, d.enemymaxhp <= 0xffff_ffff;
        assert(dd * sc <= 2 * 0xffff_ffff * 0xffff_ffff * 19683) by (nonlinear_arith)
            requires dd <= 2 * 0xffff_ffff * 0xffff_ffff, sc <= 19683;
    }
    if p == 0 {
        return 2 * (d.playermaxhp as u128) * (d.enemymaxhp as u128) * sc;
    }
    if e == 0 {
        return 0;
    }
    if rounds + 1 >= LOOKAHEAD_ROUNDS {
        proof {
            assert(scale(rounds as nat) == 1);
            assert(dd * scale(rounds as nat) == dd) by (nonlinear_arith) requires scale(rounds as nat) == 1;
        }
        return partial_score_exec(p, e, d.playermaxhp, d.enemymaxhp);
    }
    match t {
        DrawTree::Stop => 0,
        DrawTree::Round { predicted: x, phys_roll, phys, magic_roll, magic, heal: heal_tree } => {
            let x = *x;
            let mut p1 = p;
            let mut e1 = e;
            match predicted {
                Action::PhysicalAttack => {
                    e1 = take_damage(e, physical_damage_for_roll(BASE_DAMAGE, d.playeratk, d.enemydef, x));
                },
                Action::MagicAttack => {
                    e1 = take_damage(e, magic_damage_for_roll(BASE_DAMAGE, d.playermatk, d.enemymdef, x));
                },
                Action::Heal => {
                    p1 = restore(p, d.playermaxhp, heal(BASE_HEAL, d.playermatk));
                },
            }
            assert((p1, e1) == after_player_move(p, e, *d, predicted, x));
            let p_phys = take_damage(p1, physical_damage_for_roll(BASE_DAMAGE, d.enemyatk, d.playerdef, *phys_roll));
            let s_phys = score_with_draws(rounds + 1, p_phys, e1, d, predicted, phys);
            let p_magic = take_damage(p1, magic_damage_for_roll(BASE_DAMAGE, d.enemymatk, d.playermdef, *magic_roll));
            let s_magic = score_with_draws(rounds + 1, p_magic, e1, d, predicted, magic);
            let e_heal = restore(e1, d.enemymaxhp, heal(BASE_HEAL, d.enemymatk));
            let s_heal = score_with_draws(rounds + 1, p1, e_heal, d, predicted, heal_tree);
            proof {
                let child = scale((rounds + 1) as nat);
                assert(scale(rounds as nat) == 3 * child);
                lemma_pow3_bound((LOOKAHEAD_ROUNDS - 1 - (rounds + 1)) as nat);
                assert(dd * scale(rounds as nat) == 3 * (dd * child)) by (nonlinear_arith)
                    requires scale(rounds as nat) == 3 * child;
            }
            s_phys + s_magic + s_heal
        },
    }
}

/// `lookahead_choice` of the given draws: the lookahead policy with its
/// draws as an argument.
pub fn choose_move_with_draws(player: &PlayerStats, enemy: &EnemyStats, dr: &LookaheadDraws) -> (r: Action)
    requires
        player.hp <= player.max_hp,
        enemy.hp <= enemy.max_hp,
        draws_fit(*dr),
    ensures
        r == lookahead_choice(*player, *enemy, *dr),
{
    let predicted = player_predictor();
    let d = Duel {
        playermaxhp: player.max_hp,
        enemymaxhp: enemy.max_hp,
        playeratk: player.atk,
        enemyatk: enemy.physatk,
        playerdef: player.def,
        enemydef: enemy.physdef,
        playermatk: player.matk,
        enemymatk: enemy.mgkatk,
        playermdef: player.mdef,
        enemymdef: enemy.mgkdef,
    };
    let p_phys = take_damage(player.hp, physical_damage_for_roll(BASE_DAMAGE, enemy.physatk, player.def, dr.phys_roll));
    let phys = score_with_draws(0, p_phys, enemy.hp, &d, predicted, &dr.phys);
    let p_magic = take_damage(player.hp, magic_damage_for_roll(BASE_DAMAGE, enemy.mgkatk, player.mdef, dr.magic_roll));
    let magic = score_with_draws(0, p_magic, enemy.hp, &d, predicted, &dr.magic);
    let e_heal = restore(enemy.hp, enemy.max_hp, heal(BASE_HEAL, enemy.mgkatk));
    let healed_score = score_with_draws(0, player.hp, e_heal, &d, predicted, &dr.heal);
    proof {
        assert(d == duel_of(*player, *enemy));
    }
    pick_best(phys, magic, healed_score)
}

} // verus!
