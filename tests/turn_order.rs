use dungeon_gen::turn_order::{lookup_speed, TurnError, TurnOrder};

#[test]
fn empty_queue_yields_nothing() {
    let mut t = TurnOrder::new();
    assert_eq!(t.update_turn_order(&vec![]), Ok(None));
    assert_eq!(t.current_tick(), 0);
    assert_eq!(t.len(), 0);
}

#[test]
fn faster_actors_go_first() {
    let mut t = TurnOrder::new();
    assert_eq!(t.add_character(1, 10), Ok(()));
    assert_eq!(t.add_character(2, 50), Ok(()));
    assert_eq!(t.add_character(3, 80), Ok(()));
    let roster = vec![(1, 10), (2, 50), (3, 80)];
    assert_eq!(t.update_turn_order(&roster), Ok(Some((20, 3))));
    assert_eq!(t.current_tick(), 20);
    assert_eq!(t.update_turn_order(&roster), Ok(Some((40, 3))));
    assert_eq!(t.update_turn_order(&roster), Ok(Some((50, 2))));
    assert_eq!(t.update_turn_order(&roster), Ok(Some((60, 3))));
    assert_eq!(t.update_turn_order(&roster), Ok(Some((80, 3))));
    assert_eq!(t.update_turn_order(&roster), Ok(Some((90, 1))));
    assert_eq!(t.len(), 3);
}

#[test]
fn ties_go_to_the_lower_entity() {
    let mut t = TurnOrder::new();
    t.add_character(9, 50).unwrap();
    t.add_character(4, 50).unwrap();
    assert_eq!(t.update_turn_order(&vec![]), Ok(Some((50, 4))));
    assert_eq!(t.update_turn_order(&vec![]), Ok(Some((50, 9))));
    assert_eq!(t.update_turn_order(&vec![]), Ok(None));
}

#[test]
fn invalid_speed_is_rejected() {
    let mut t = TurnOrder::new();
    assert_eq!(t.add_character(1, 100), Err(TurnError::InvalidSpeed));
    assert_eq!(t.add_character(1, 250), Err(TurnError::InvalidSpeed));
    assert_eq!(t.len(), 0);
    assert_eq!(t.add_character(1, 99), Ok(()));
    assert_eq!(t.update_turn_order(&vec![(1, 100)]), Err(TurnError::InvalidSpeed));
    assert_eq!(t.len(), 1);
    assert_eq!(t.current_tick(), 0);
}

#[test]
fn tick_overflow_is_rejected() {
    let mut t = TurnOrder::new();
    t.add_character(1, 0).unwrap();
    // Each turn moves the clock by 100, until the next tick would not fit.
    let roster = vec![(1u64, 0u32)];
    let mut last = 0u32;
    loop {
        match t.update_turn_order(&roster) {
            Ok(Some((tick, 1))) => last = tick,
            Err(TurnError::TickOverflow) => break,
            other => panic!("unexpected {:?}", other),
        }
    }
    assert_eq!(last, u32::MAX / 100 * 100 - 100);
    assert_eq!(t.current_tick(), last);
    assert_eq!(t.len(), 1);
    let mut u = TurnOrder::new();
    u.priority_move(5);
    assert_eq!(u.update_turn_order(&vec![(5, 1)]), Ok(Some((0, 5))));
    assert_eq!(u.current_tick(), 0);
}

#[test]
fn priority_move_acts_now() {
    let mut t = TurnOrder::new();
    t.add_character(1, 50).unwrap();
    t.add_character(2, 90).unwrap();
    assert_eq!(t.update_turn_order(&vec![(1, 50), (2, 90)]), Ok(Some((10, 2))));
    t.priority_move(1);
    assert_eq!(t.update_turn_order(&vec![]), Ok(Some((10, 1))));
    assert_eq!(t.update_turn_order(&vec![]), Ok(Some((20, 2))));
    assert_eq!(t.update_turn_order(&vec![]), Ok(Some((50, 1))));
}

#[test]
fn turns_come_in_tick_order() {
    let mut t = TurnOrder::new();
    let roster: Vec<(u64, u32)> = (0..6).map(|e| (e, (e as u32) * 15 + 3)).collect();
    for &(e, s) in &roster {
        t.add_character(e, s).unwrap();
    }
    let mut last = 0;
    for _ in 0..200 {
        let (tick, _) = t.update_turn_order(&roster).unwrap().unwrap();
        assert!(tick >= last);
        assert_eq!(t.current_tick(), tick);
        last = tick;
    }
}

#[test]
fn roster_lookup_takes_first_entry() {
    let roster = vec![(3, 10), (5, 20), (3, 30)];
    assert_eq!(lookup_speed(&roster, 3), Some(10));
    assert_eq!(lookup_speed(&roster, 5), Some(20));
    assert_eq!(lookup_speed(&roster, 4), None);
}
