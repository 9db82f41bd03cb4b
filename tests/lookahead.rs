use dungeon_gen::lookahead::{
    chooseMove, choose_move_with_draws, partial_score_exec, pick_best, player_predictor, recursive, score_with_draws,
    DrawTree, Duel, LookaheadDraws,
};
use dungeon_gen::policy::Action;
use dungeon_gen::stats::{EnemyStats, PlayerStats};
use rand::rngs::StdRng;
use rand::SeedableRng;

fn run(rounds: u32, php: u32, ehp: u32, seed: u64) -> u128 {
    let mut rng = StdRng::seed_from_u64(seed);
    recursive(rounds, php, ehp, 10, 20, 1, 1, 1, 1, 1, 1, 1, 1, Action::PhysicalAttack, &mut rng)
}

#[test]
fn predictor_always_attacks() {
    assert_eq!(player_predictor(), Action::PhysicalAttack);
}

#[test]
fn best_action_rules() {
    assert_eq!(pick_best(3, 2, 1), Action::PhysicalAttack);
    assert_eq!(pick_best(3, 3, 1), Action::MagicAttack);
    assert_eq!(pick_best(1, 3, 2), Action::MagicAttack);
    assert_eq!(pick_best(1, 2, 2), Action::Heal);
    assert_eq!(pick_best(0, 0, 0), Action::Heal);
}

#[test]
fn partial_scores() {
    // 1/2 - (5/10)/2 + (10/20)/2 = 1/2, i.e. 200 of 2 * 10 * 20
    assert_eq!(partial_score_exec(5, 10, 10, 20), 200);
    // full player, empty enemy: 0
    assert_eq!(partial_score_exec(10, 0, 10, 20), 0);
    // empty player, full enemy: 1
    assert_eq!(partial_score_exec(0, 20, 10, 20), 400);
}

#[test]
fn stopped_simulations() {
    // a fallen player is a win on every leaf: 400 * 3^9
    assert_eq!(run(0, 0, 20, 1), 400 * 19683);
    assert_eq!(run(8, 0, 5, 1), 400 * 3);
    assert_eq!(run(0, 4, 0, 1), 0);
    assert_eq!(run(9, 5, 10, 1), 200);
}

#[test]
fn simulation_scores_stay_in_range() {
    for seed in 0..3 {
        let v = run(0, 10, 20, seed);
        assert!(v <= 400 * 19683);
        let w = run(7, 6, 9, seed);
        assert!(w <= 400 * 9);
    }
}

#[test]
fn same_seed_same_choice() {
    let player = PlayerStats::new();
    let enemy = EnemyStats::new(2);
    let mut a = StdRng::seed_from_u64(42);
    let mut b = StdRng::seed_from_u64(42);
    assert_eq!(chooseMove(&player, &enemy, &mut a), chooseMove(&player, &enemy, &mut b));
}

#[test]
fn finishing_blow_is_not_a_heal() {
    let player = PlayerStats { hp: 1, ..PlayerStats::new() };
    let enemy = EnemyStats { physatk: 50, ..EnemyStats::new(2) };
    for seed in 0..3 {
        let mut rng = StdRng::seed_from_u64(seed);
        assert_ne!(chooseMove(&player, &enemy, &mut rng), Action::Heal);
    }
}

fn duel() -> Duel {
    Duel {
        playermaxhp: 10,
        enemymaxhp: 20,
        playeratk: 1,
        enemyatk: 1,
        playerdef: 1,
        enemydef: 1,
        playermatk: 1,
        enemymatk: 1,
        playermdef: 1,
        enemymdef: 1,
    }
}

fn one_round(predicted: u32, phys_roll: u32, magic_roll: u32) -> DrawTree {
    DrawTree::Round {
        predicted,
        phys_roll,
        phys: Box::new(DrawTree::Stop),
        magic_roll,
        magic: Box::new(DrawTree::Stop),
        heal: Box::new(DrawTree::Stop),
    }
}

#[test]
fn last_round_sums_three_branches() {
    // The player's attack leaves the enemy at 14. Then: physical 10 -> 4
    // (260), magic misses (140), heal 14 -> 18 (180).
    let t = one_round(100, 100, 99);
    assert_eq!(score_with_draws(8, 10, 20, &duel(), Action::PhysicalAttack, &t), 580);
    // A magic hit takes 6: 10 -> 4 in the magic branch too (260).
    let t = one_round(100, 100, 0);
    assert_eq!(score_with_draws(8, 10, 20, &duel(), Action::PhysicalAttack, &t), 700);
    // Positions that end the simulation take no draws.
    assert_eq!(score_with_draws(9, 5, 10, &duel(), Action::PhysicalAttack, &DrawTree::Stop), 200);
    assert_eq!(score_with_draws(3, 0, 10, &duel(), Action::PhysicalAttack, &DrawTree::Stop), 400 * 729);
}

#[test]
fn choice_from_given_draws() {
    let player = PlayerStats::new();
    let enemy = EnemyStats::new(2);
    let stop = || LookaheadDraws {
        phys_roll: 100,
        phys: DrawTree::Stop,
        magic_roll: 0,
        magic: DrawTree::Stop,
        heal: DrawTree::Stop,
    };
    // Unfinished simulations without draws score nothing: all tie, so heal.
    assert_eq!(choose_move_with_draws(&player, &enemy, &stop()), Action::Heal);
    // A one-hit-point player falls to either attack: both score the whole
    // scale, so the magic attack wins the tie against the physical one.
    let weak = PlayerStats { hp: 1, ..PlayerStats::new() };
    assert_eq!(choose_move_with_draws(&weak, &enemy, &stop()), Action::MagicAttack);
}

#[test]
fn fallen_player_means_heal() {
    let player = PlayerStats { hp: 0, ..PlayerStats::new() };
    let enemy = EnemyStats::new(2);
    let mut rng = StdRng::seed_from_u64(3);
    assert_eq!(chooseMove(&player, &enemy, &mut rng), Action::Heal);
}
