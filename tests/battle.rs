use dungeon_gen::battle::{enemy_attack, player_action};
use dungeon_gen::combat::{
    change_hp, heal, magic_attack, magic_damage_for_roll, physical_attack, physical_damage_for_roll, restore,
    take_damage, HpChange,
};
use dungeon_gen::dialogue::BattleDialogue;
use dungeon_gen::policy::{action_from_roll, ai_attack, choose_attack, rand_attack, Action};
use dungeon_gen::stats::{Attribute, EnemyStats, PlayerStats};
use rand::rngs::StdRng;
use rand::SeedableRng;

#[test]
fn physical_damage_formula() {
    // 5 * 1.00 * 1.1 * 1.05 = 5.775
    assert_eq!(physical_damage_for_roll(5, 1, 1, 100), 6);
    // 5 * 0.75 = 3.75
    assert_eq!(physical_damage_for_roll(5, 0, 0, 75), 4);
    // 5 * 1.24 * 2 * 1.5 = 18.6
    assert_eq!(physical_damage_for_roll(5, 10, 10, 124), 19);
    // a half rounds up: 2 * 0.75 = 1.5
    assert_eq!(physical_damage_for_roll(2, 0, 0, 75), 2);
    assert_eq!(physical_damage_for_roll(0, 9, 9, 100), 0);
    assert_eq!(physical_damage_for_roll(u32::MAX, u32::MAX, u32::MAX, 124), u32::MAX);
}

#[test]
fn magic_damage_formula() {
    // contest (1 - 1 + 10) * 5 + 25 = 75
    assert_eq!(magic_damage_for_roll(5, 1, 1, 74), 6);
    assert_eq!(magic_damage_for_roll(5, 1, 1, 75), 0);
    // a defence far above the attack never lets magic through
    assert_eq!(magic_damage_for_roll(5, 0, 100, 0), 0);
    // an attack far above the defence always lands
    assert_eq!(magic_damage_for_roll(5, 20, 0, 99), 15);
}

#[test]
fn heal_formula() {
    assert_eq!(heal(4, 1), 4);
    assert_eq!(heal(4, 5), 6);
    assert_eq!(heal(4, 0), 4);
    assert_eq!(heal(5, 1), 6);
}

#[test]
fn hit_points_are_clamped() {
    assert_eq!(take_damage(3, 5), 0);
    assert_eq!(take_damage(10, 4), 6);
    assert_eq!(restore(8, 10, 5), 10);
    assert_eq!(restore(3, 10, 4), 7);
    assert_eq!(restore(10, 10, 4), 10);
    let mut hp = 10u32;
    let changes = [
        HpChange::Damage(4),
        HpChange::Heal(100),
        HpChange::Damage(25),
        HpChange::Heal(3),
        HpChange::Damage(0),
        HpChange::Heal(u32::MAX),
    ];
    let expect = [6u32, 10, 0, 3, 3, 10];
    for (ch, want) in changes.iter().zip(expect.iter()) {
        hp = change_hp(hp, 10, *ch);
        assert_eq!(hp, *want);
        assert!(hp <= 10);
    }
}

#[test]
fn random_attacks_stay_in_range() {
    let mut rng = StdRng::seed_from_u64(1);
    for _ in 0..200 {
        let d = physical_attack(5, 1, 1, &mut rng);
        // 5 * [0.75, 1.25) * 1.1 * 1.05 lies in [4.33, 7.22)
        assert!((4..=7).contains(&d));
        let m = magic_attack(5, 1, 1, &mut rng);
        assert!(m == 0 || m == 6);
    }
}

fn enemy(physatk: u32, mgkatk: u32, hp: u32, max_hp: u32) -> EnemyStats {
    EnemyStats { physatk, mgkatk, hp, max_hp, etype: 2, ..EnemyStats::new(2) }
}

#[test]
fn heuristic_never_heals_when_nearly_full() {
    let player = PlayerStats::new();
    for (pa, ma) in [(1, 1), (1, 30), (30, 1), (0, 0)] {
        assert_ne!(ai_attack(&player, &enemy(pa, ma, 19, 20)), Action::Heal);
        assert_ne!(ai_attack(&player, &enemy(pa, ma, 95, 100)), Action::Heal);
    }
}

#[test]
fn heuristic_scores() {
    let player = PlayerStats::new();
    // equal stats, 50% hp: heal 2 beats attacks 0
    assert_eq!(ai_attack(&player, &enemy(1, 1, 5, 10)), Action::Heal);
    // low hp: heal 6 beats a physical lead of 2
    assert_eq!(ai_attack(&player, &enemy(5, 1, 2, 10)), Action::Heal);
    // 70% hp: heal 1 loses to a physical lead of 2
    assert_eq!(ai_attack(&player, &enemy(5, 1, 7, 10)), Action::PhysicalAttack);
    // magic lead of 3 at 70%
    assert_eq!(ai_attack(&player, &enemy(1, 7, 7, 10)), Action::MagicAttack);
    // ties go to the physical attack
    assert_eq!(ai_attack(&player, &enemy(1, 1, 10, 10)), Action::PhysicalAttack);
    // exactly 30%: strongest heal urge
    assert_eq!(ai_attack(&player, &enemy(30, 1, 3, 10)), Action::PhysicalAttack);
    assert_eq!(ai_attack(&player, &enemy(9, 1, 3, 10)), Action::Heal);
    // player below 20%: both attacks gain 10
    let weak = PlayerStats { hp: 1, max_hp: 10, ..PlayerStats::new() };
    assert_eq!(ai_attack(&weak, &enemy(1, 1, 2, 10)), Action::PhysicalAttack);
    // the player's defences favour magic
    let tough = PlayerStats { def: 9, mdef: 1, ..PlayerStats::new() };
    assert_eq!(ai_attack(&tough, &enemy(1, 1, 10, 10)), Action::MagicAttack);
}

#[test]
fn random_policy_by_remainder() {
    assert_eq!(action_from_roll(0), Action::PhysicalAttack);
    assert_eq!(action_from_roll(1), Action::MagicAttack);
    assert_eq!(action_from_roll(2), Action::Heal);
    assert_eq!(action_from_roll(99), Action::PhysicalAttack);
    let mut a = StdRng::seed_from_u64(5);
    let mut b = StdRng::seed_from_u64(5);
    for _ in 0..20 {
        assert_eq!(rand_attack(&mut a), rand_attack(&mut b));
    }
}

#[test]
fn choose_attack_by_kind() {
    let player = PlayerStats::new();
    let mut rng = StdRng::seed_from_u64(2);
    let plain = EnemyStats::new(3);
    assert_eq!(choose_attack(&player, &plain, &mut rng), Action::PhysicalAttack);
    let smart = enemy(1, 1, 5, 10);
    assert_eq!(choose_attack(&player, &smart, &mut rng), ai_attack(&player, &smart));
    let wild = EnemyStats::new(1);
    let mut seen = [false; 3];
    for _ in 0..100 {
        match choose_attack(&player, &wild, &mut rng) {
            Action::PhysicalAttack => seen[0] = true,
            Action::MagicAttack => seen[1] = true,
            Action::Heal => seen[2] = true,
        }
    }
    assert_eq!(seen, [true, true, true]);
}

#[test]
fn enemy_turn_applies_the_action() {
    let mut rng = StdRng::seed_from_u64(8);
    let mut player = PlayerStats::new();
    let mut foe = EnemyStats { physatk: 40, ..EnemyStats::new(3) };
    let (action, dmg) = enemy_attack(&mut player, &mut foe, &mut rng);
    assert_eq!(action, Action::PhysicalAttack);
    assert!(dmg >= 18);
    assert_eq!(player.hp, 0);
    let mut healer = enemy(1, 1, 2, 10);
    let mut p2 = PlayerStats::new();
    let (action, amount) = enemy_attack(&mut p2, &mut healer, &mut rng);
    assert_eq!(action, Action::Heal);
    assert_eq!(amount, 4);
    assert_eq!(healer.hp, 6);
    assert_eq!(p2.hp, 10);
}

#[test]
fn player_turn_applies_the_action() {
    let mut rng = StdRng::seed_from_u64(4);
    let mut player = PlayerStats { hp: 3, magic: 5, ..PlayerStats::new() };
    let mut foe = EnemyStats::new(1);
    let healed = player_action(Action::Heal, &mut player, &mut foe, &mut rng);
    assert_eq!(healed, 6);
    assert_eq!(player.hp, 9);
    let dmg = player_action(Action::PhysicalAttack, &mut player, &mut foe, &mut rng);
    assert_eq!(foe.hp, 10 - dmg);
    assert_eq!(player.hp, 9);
}

#[test]
fn stats_defaults() {
    let p = PlayerStats::new();
    assert_eq!((p.atk, p.hp, p.max_hp, p.skill_points, p.ability_points), (1, 10, 10, 4, 8));
    assert_eq!(p.calculate_max_hp(), 100);
    let mut q = p;
    q.update_max_hp();
    assert_eq!(q.max_hp, 100);
    assert_eq!(q.hp, 10);
    let e = EnemyStats::new(2);
    assert_eq!((e.physatk, e.hp, e.max_hp, e.etype, e.next_action_tick), (1, 10, 10, 2, 0));
    assert_eq!(EnemyStats::new(1).sprite_path(), "enemyPlaceHolder.png");
    assert_eq!(e.sprite_path(), "characterProto.png");
    assert_eq!(EnemyStats::new(7).sprite_path(), "tileProto.png");
}

#[test]
fn dialogue_scrolls() {
    let mut d = BattleDialogue::new();
    assert_eq!((d.dialogue1.as_str(), d.dialogue2.as_str(), d.dialogue3.as_str()), ("", "", ">Battle Start"));
    d.change(String::from("a"));
    d.change(String::from("b"));
    assert_eq!((d.dialogue1.as_str(), d.dialogue2.as_str(), d.dialogue3.as_str()), (">Battle Start", "a", "b"));
    d.change(String::from("c"));
    assert_eq!((d.dialogue1.as_str(), d.dialogue2.as_str(), d.dialogue3.as_str()), ("a", "b", "c"));
}

#[test]
fn ability_points_raise_attributes() {
    let mut p = PlayerStats { hp: 4, ability_points: 2, ..PlayerStats::new() };
    assert!(p.spend_ability_point(Attribute::Strength));
    assert_eq!((p.strength, p.ability_points), (2, 1));
    assert!(p.spend_ability_point(Attribute::Health));
    assert_eq!((p.health, p.hp, p.ability_points), (2, 10, 0));
    let before = p;
    assert!(!p.spend_ability_point(Attribute::Magic));
    assert_eq!(p, before);
    let mut q = PlayerStats::new();
    assert!(q.spend_ability_point(Attribute::Agility));
    assert!(q.spend_ability_point(Attribute::Magic));
    assert_eq!((q.agility, q.magic, q.ability_points), (2, 2, 6));
}

#[test]
fn skill_points_are_spent() {
    let mut p = PlayerStats::new();
    p.spend_skill_points(3);
    assert_eq!(p.skill_points, 1);
    p.spend_skill_points(1);
    assert_eq!(p.skill_points, 0);
    p.spend_skill_points(5);
    assert_eq!(p.skill_points, 0);
}
