use wt::error::{CoreError, ExitClass};
use wt::json::parse;
use wt::lock::{
    after_attempt, anchor, door, git, lock_io, named_occupancy, named_slot_path, registry_rmw,
    resource, state_rmw, timeout_error, trace_flock, tree, AcquireStep, Attempt, Held, Holder,
    Level, Mode, NamedStep, NamedWait, SlotState, TraceEntry,
};

fn held_error() -> CoreError {
    timeout_error(Level::Named, Mode::Exclusive, "/locks/0.lock")
}

#[test]
fn six_levels_acquire_in_order_and_out_of_order_panics() {
    let levels = [
        tree("1", Mode::Shared, 0).level,
        git("2", 0).level,
        resource("3", 0).level,
        Level::Named,
        registry_rmw("5", 0).level,
        state_rmw("6", 0).level,
    ];
    let mut held = Held::new();
    for level in levels {
        assert!(held.may_acquire(level));
        held.trace_acquire(level);
        assert!(!held.may_acquire(level));
    }
    for level in levels.iter().rev() {
        assert!(held.may_release(*level));
        held.trace_release(*level);
    }
    held.trace_acquire(Level::Named);
    assert!(!held.may_acquire(Level::Tree), "a lower level is refused while a higher is held");
    assert!(!held.may_release(Level::Tree));
}

#[test]
fn a_level_counts_only_while_its_lock_is_taken() {
    let mut held = Held::new();
    let entry = TraceEntry::new(&mut held, Level::Tree, true);
    assert_eq!(held.levels, [Level::Tree]);
    entry.end(&mut held);
    assert!(held.levels.is_empty());
    let mut kept = TraceEntry::new(&mut held, Level::Tree, true);
    kept.disarm();
    kept.end(&mut held);
    assert_eq!(held.levels, [Level::Tree]);
    let silent = TraceEntry::new(&mut held, Level::Tree, false);
    silent.end(&mut held);
    assert_eq!(held.levels, [Level::Tree]);
}

#[test]
fn shared_tree_and_door_record_are_one_level_and_can_coexist() {
    let shared = tree("/tree.lock", Mode::Shared, 500);
    assert_eq!((shared.mode, shared.wait, shared.traced), (Mode::Shared, 0, true));
    let beside = door("/tree.doors/123.lock");
    assert_eq!((beside.level, beside.mode), (Level::Tree, Mode::Exclusive));
    assert!(!beside.traced, "the level of a door does not count again");
    assert!(matches!(
        after_attempt(&shared, &Attempt::Taken, 0, false),
        AcquireStep::Hold { record: false, waited: false }
    ));
    assert!(matches!(
        after_attempt(&beside, &Attempt::Taken, 0, false),
        AcquireStep::Hold { record: true, waited: false }
    ));
}

#[test]
fn section_4_named_slot_ignores_a_held_flat_leftover() {
    let flat = tree("/locks/named/serial.lock", Mode::Exclusive, 0);
    let mut wait = NamedWait::new(1, Some(0));
    let NamedStep::Took(slot) = wait.tried(Ok(()), 0) else {
        panic!("the slot is free");
    };
    let path = named_slot_path("/locks/named/serial", slot);
    assert_eq!(path, "/locks/named/serial/0.lock");
    assert_ne!(path, flat.path);
}

#[test]
fn deadline_returns_the_class_for_the_requested_level() {
    let shared = tree("/tree.lock", Mode::Shared, 10);
    match after_attempt(&shared, &Attempt::Busy, 0, false) {
        AcquireStep::Fail(error) => assert_eq!(error.code, "TREE_BUSY"),
        other => panic!("{other:?}"),
    }
    for (wanted, class, code) in [
        (tree("p", Mode::Exclusive, 10), ExitClass::Conflict, "TREE_IN_USE"),
        (anchor("p"), ExitClass::Conflict, "LOCK_HELD"),
        (git("p", 10), ExitClass::Conflict, "LOCK_HELD"),
        (resource("p", 10), ExitClass::Conflict, "LOCK_HELD"),
        (registry_rmw("p", 10), ExitClass::Timeout, "LOCK_TIMEOUT"),
        (state_rmw("p", 10), ExitClass::Timeout, "LOCK_TIMEOUT"),
    ] {
        match after_attempt(&wanted, &Attempt::Busy, 10, true) {
            AcquireStep::Fail(error) => {
                assert_eq!((error.class, error.code.as_str()), (class, code));
                assert_eq!(error.message, "timed out waiting for p");
            }
            other => panic!("{other:?}"),
        }
    }
    assert!(matches!(
        after_attempt(&git("p", 10), &Attempt::Busy, 9, false),
        AcquireStep::Sleep(5)
    ));
    match after_attempt(&git("p", 10), &Attempt::Failed("why".into()), 0, false) {
        AcquireStep::Fail(error) => {
            assert_eq!(error.code, "LOCK_IO_FAILED");
            assert_eq!(error.message, "acquire lock p: why");
        }
        other => panic!("{other:?}"),
    }
    assert_eq!(lock_io("open", "p", "why").message, "open p: why");
}

/// Takes a named lock among slots whose holders are only imagined.
fn take(slots: &mut Vec<Option<String>>, who: &str, wait: u64, free_at: Option<(u64, usize)>) -> NamedStep {
    let mut taking = NamedWait::new(slots.len() as u16, Some(wait));
    let mut elapsed = 0;
    loop {
        let at = taking.next as usize;
        let outcome = if slots[at].is_none() { Ok(()) } else { Err(held_error()) };
        match taking.tried(outcome, elapsed) {
            NamedStep::Took(slot) => {
                slots[slot as usize] = Some(who.to_string());
                return NamedStep::Took(slot);
            }
            NamedStep::Try(_) => {}
            NamedStep::Sleep(time) => elapsed += time,
            NamedStep::Survey => return taking.surveyed(&survey(slots)),
            other => return other,
        }
        if let Some((when, slot)) = free_at {
            if elapsed >= when && slots[slot].as_deref() != Some(who) {
                slots[slot] = None;
            }
        }
    }
}

fn survey(slots: &[Option<String>]) -> wt::lock::NamedOccupancy {
    let seen = slots
        .iter()
        .map(|slot| match slot {
            None => SlotState::Free,
            Some(who) => SlotState::Held(Some(Holder::current(1, who, "run", "now"))),
        })
        .collect();
    named_occupancy("/named/serial", &seen)
}

#[test]
fn named_capacity_fills_slots_and_waits_for_the_first_free_one() {
    let mut slots = vec![None, None];
    assert!(matches!(take(&mut slots, "repo/first", 0, None), NamedStep::Took(0)));
    assert!(matches!(take(&mut slots, "repo/second", 0, None), NamedStep::Took(1)));
    assert!(matches!(take(&mut slots, "repo/third", 0, None), NamedStep::Full));
    let occupancy = survey(&slots);
    assert_eq!(occupancy.slots, 2);
    let held: Vec<u16> = occupancy.holders.iter().map(|holder| holder.slot).collect();
    assert_eq!(held, [0, 1]);
    assert!(matches!(
        take(&mut slots, "repo/waiter", 1000, Some((300, 0))),
        NamedStep::Took(0)
    ));
    let occupancy = survey(&slots);
    assert_eq!(occupancy.holders.len(), 2);
    assert!(occupancy.holders.iter().any(|slot| slot
        .holder
        .as_ref()
        .is_some_and(|holder| holder.target == "repo/waiter")));
}

#[test]
fn a_named_lock_is_swept_until_the_wait_is_over() {
    let mut wait = NamedWait::new(2, Some(250));
    assert!(matches!(wait.tried(Err(held_error()), 0), NamedStep::Try(1)));
    assert!(matches!(wait.tried(Err(held_error()), 0), NamedStep::Sleep(100)));
    assert_eq!(wait.next, 0);
    assert!(matches!(wait.tried(Err(held_error()), 200), NamedStep::Try(1)));
    assert!(matches!(wait.tried(Err(held_error()), 200), NamedStep::Sleep(50)));
    assert!(matches!(wait.tried(Ok(()), 240), NamedStep::Took(0)));

    let mut late = NamedWait::new(1, Some(10));
    assert!(matches!(late.tried(Err(held_error()), 10), NamedStep::Survey));
    let mut patient = NamedWait::new(1, None);
    assert!(matches!(patient.tried(Err(held_error()), u64::MAX), NamedStep::Sleep(100)));
    let broken = CoreError::new(ExitClass::Internal, "LOCK_IO_FAILED", "m", "r");
    assert!(matches!(patient.tried(Err(broken), 0), NamedStep::Fail(_)));
}

#[test]
fn occupancy_names_the_held_slots_in_order() {
    let holder = Holder::current(7, "repo/tree", "run", "now");
    let seen = vec![SlotState::Held(None), SlotState::Free, SlotState::Held(Some(holder))];
    let occupancy = named_occupancy("/named/serial", &seen);
    assert_eq!(occupancy.slots, 3);
    let slots: Vec<u16> = occupancy.holders.iter().map(|held| held.slot).collect();
    assert_eq!(slots, [0, 2]);
    assert_eq!(occupancy.holders[1].path, "/named/serial/2.lock");
    assert_eq!(occupancy.holders[1].holder.as_ref().unwrap().pid, 7);
    let wait = NamedWait::new(3, Some(0));
    assert!(matches!(wait.surveyed(&occupancy), NamedStep::Sleep(5)));
    let full = named_occupancy("/n", &vec![SlotState::Held(None)]);
    assert!(matches!(NamedWait::new(1, Some(0)).surveyed(&full), NamedStep::Full));
}

#[test]
fn levels_have_their_numbers_and_names() {
    let all = [
        (Level::Anchor, 0, "Anchor"),
        (Level::Tree, 1, "Tree"),
        (Level::RepoGit, 2, "RepoGit"),
        (Level::Resource, 3, "Resource"),
        (Level::Named, 4, "Named"),
        (Level::RegistryRmw, 5, "RegistryRmw"),
        (Level::StateRmw, 6, "StateRmw"),
    ];
    for (level, number, name) in all {
        assert_eq!((level.number(), level.name()), (number, name));
    }
    let line = trace_flock("/p", Level::Tree, Mode::Shared);
    let j = parse(line.as_bytes()).unwrap();
    assert_eq!(j.compact, "{\"level\":\"Tree\",\"mode\":\"shared\",\"path\":\"/p\"}");
}
