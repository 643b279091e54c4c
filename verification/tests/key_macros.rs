use hellcall_core::keys::{
    check_key_map, contains_key, has_validity, key_slot, macro_error_message,
    missing_mapping_message, plan_key_steps, KeyMap,
    KeyPresserConfig, KeyStep, LocalKey, MacroError, MacroQueue, Shortcuts,
};

fn full_map() -> KeyMap {
    let mut m = KeyMap::empty();
    m.insert(LocalKey::UP, 10);
    m.insert(LocalKey::DOWN, 11);
    m.insert(LocalKey::LEFT, 12);
    m.insert(LocalKey::RIGHT, 13);
    m.insert(LocalKey::OPEN, 14);
    m.insert(LocalKey::THROW, 15);
    m
}

#[test]
fn key_map_binds_and_replaces() {
    let mut m = KeyMap::empty();
    assert_eq!(m.get(LocalKey::UP), None);
    m.insert(LocalKey::UP, 1);
    m.insert(LocalKey::UP, 2);
    assert_eq!(m.get(LocalKey::UP), Some(2));
    assert_eq!(m.get(LocalKey::DOWN), None);
    assert_eq!(key_slot(LocalKey::OCC), 8);
}

#[test]
fn key_map_check_names_first_unbound_key() {
    assert_eq!(check_key_map(&KeyMap::empty()), Err(LocalKey::UP));
    let mut m = full_map();
    assert_eq!(check_key_map(&m), Ok(()));
    let mut partial = KeyMap::empty();
    partial.insert(LocalKey::UP, 1);
    partial.insert(LocalKey::DOWN, 2);
    partial.insert(LocalKey::RIGHT, 3);
    assert_eq!(check_key_map(&partial), Err(LocalKey::LEFT));
    m.insert(LocalKey::PTT, 99);
    assert_eq!(check_key_map(&m), Ok(()));
}

#[test]
fn macro_validity_errors() {
    assert_eq!(has_validity(&[]), Err(MacroError::Empty));
    assert_eq!(
        has_validity(&[LocalKey::UP, LocalKey::RESEND]),
        Err(MacroError::ContainsResend)
    );
    assert_eq!(
        has_validity(&[LocalKey::UP, LocalKey::OPEN]),
        Err(MacroError::OpenNotFirst)
    );
    assert_eq!(
        has_validity(&[LocalKey::THROW, LocalKey::UP]),
        Err(MacroError::ThrowNotLast)
    );
    assert_eq!(
        has_validity(&[LocalKey::OPEN, LocalKey::OPEN, LocalKey::UP, LocalKey::THROW]),
        Err(MacroError::OpenNotFirst)
    );
    assert_eq!(
        has_validity(&[LocalKey::OPEN, LocalKey::THROW, LocalKey::UP, LocalKey::THROW]),
        Err(MacroError::ThrowNotLast)
    );
}

#[test]
fn macro_validity_accepts_well_formed_macros() {
    assert_eq!(has_validity(&[LocalKey::UP]), Ok(()));
    assert_eq!(
        has_validity(&[LocalKey::OPEN, LocalKey::DOWN, LocalKey::UP, LocalKey::THROW]),
        Ok(())
    );
    assert_eq!(has_validity(&[LocalKey::OPEN]), Ok(()));
    assert!(contains_key(&[LocalKey::UP, LocalKey::OCC], LocalKey::OCC));
    assert!(!contains_key(&[LocalKey::UP], LocalKey::OCC));
}

#[test]
fn default_timings() {
    let c = KeyPresserConfig::default();
    assert_eq!(c.wait_open_time, 30);
    assert_eq!(c.key_release_interval, 30);
    assert_eq!(c.diff_key_interval, 20);
}

#[test]
fn plan_holds_open_until_the_end() {
    let c = KeyPresserConfig { wait_open_time: 5, key_release_interval: 6, diff_key_interval: 7 };
    let m = full_map();
    let steps = plan_key_steps(&[LocalKey::OPEN, LocalKey::UP, LocalKey::THROW], false, &c, &m);
    assert_eq!(
        steps,
        vec![
            KeyStep::Press(14),
            KeyStep::Sleep(5),
            KeyStep::Press(10),
            KeyStep::Sleep(6),
            KeyStep::Release(10),
            KeyStep::Sleep(7),
            KeyStep::Press(15),
            KeyStep::Sleep(6),
            KeyStep::Release(15),
            KeyStep::Sleep(7),
            KeyStep::Release(14),
        ]
    );
    let presses = steps.iter().filter(|s| matches!(s, KeyStep::Press(_))).count();
    let releases = steps.iter().filter(|s| matches!(s, KeyStep::Release(_))).count();
    assert_eq!(presses, 3);
    assert_eq!(releases, presses);
}

#[test]
fn fast_plan_skips_the_menu_wait() {
    let c = KeyPresserConfig { wait_open_time: 5, key_release_interval: 6, diff_key_interval: 7 };
    let m = full_map();
    let slow = plan_key_steps(&[LocalKey::DOWN], false, &c, &m);
    assert_eq!(
        slow,
        vec![KeyStep::Sleep(5), KeyStep::Press(11), KeyStep::Sleep(6), KeyStep::Release(11), KeyStep::Sleep(7)]
    );
    let fast = plan_key_steps(&[LocalKey::DOWN], true, &c, &m);
    assert_eq!(
        fast,
        vec![KeyStep::Press(11), KeyStep::Sleep(6), KeyStep::Release(11), KeyStep::Sleep(7)]
    );
    assert_eq!(plan_key_steps(&[], true, &c, &m), vec![]);
}

#[test]
fn shortcut_lookup_prefers_later_entries() {
    let s = Shortcuts {
        entries: vec![(7, vec![LocalKey::UP]), (8, vec![LocalKey::DOWN]), (7, vec![LocalKey::LEFT])],
    };
    assert_eq!(s.lookup(7), Some(vec![LocalKey::LEFT]));
    assert_eq!(s.lookup(8), Some(vec![LocalKey::DOWN]));
    assert_eq!(s.lookup(9), None);
}

#[test]
fn open_sends_once_and_resend_rearms() {
    let shortcuts = Shortcuts { entries: vec![(50, vec![LocalKey::RIGHT, LocalKey::UP])] };
    let mut q = MacroQueue::new();
    assert!(q.push(&[LocalKey::UP, LocalKey::DOWN]).is_none());
    let first = q.on_press(1, false, 1, 2, &shortcuts).expect("open sends the macro");
    assert_eq!(first.keys, vec![LocalKey::UP, LocalKey::DOWN]);
    assert!(!first.fast);
    assert!(q.on_press(1, false, 1, 2, &shortcuts).is_none());
    assert!(q.on_press(2, false, 1, 2, &shortcuts).is_none());
    let again = q.on_press(1, false, 1, 2, &shortcuts).expect("resend re-arms the macro");
    assert_eq!(again.keys, vec![LocalKey::UP, LocalKey::DOWN]);
}

#[test]
fn queue_ignores_presses_while_simulating_and_runs_shortcuts_fast() {
    let shortcuts = Shortcuts { entries: vec![(50, vec![LocalKey::RIGHT, LocalKey::UP])] };
    let mut q = MacroQueue::new();
    assert!(q.push(&[LocalKey::LEFT]).is_none());
    assert!(q.on_press(1, true, 1, 2, &shortcuts).is_none());
    assert_eq!(q.one_stack, Some(vec![LocalKey::LEFT]));
    let job = q.on_press(50, false, 1, 2, &shortcuts).expect("shortcut job");
    assert!(job.fast);
    assert_eq!(job.keys, vec![LocalKey::RIGHT, LocalKey::UP]);
    assert!(q.on_press(51, false, 1, 2, &shortcuts).is_none());
}

#[test]
fn macro_that_opens_the_menu_runs_at_once() {
    let mut q = MacroQueue::new();
    let job = q.push(&[LocalKey::OPEN, LocalKey::UP]).expect("immediate job");
    assert!(!job.fast);
    assert_eq!(job.keys, vec![LocalKey::OPEN, LocalKey::UP]);
    assert_eq!(q.one_stack, None);
    assert!(q.push(&[]).is_none());
}

#[test]
fn queue_over_a_long_run_of_presses() {
    let shortcuts = Shortcuts { entries: vec![(50, vec![LocalKey::RIGHT])] };
    let mut q = MacroQueue::new();
    assert!(q.push(&[LocalKey::UP]).is_none());
    // press, expected slow job sent
    let presses: [(u64, bool); 9] =
        [(7, false), (2, false), (1, true), (1, false), (50, false), (2, false), (2, false), (1, true), (1, false)];
    for (input, sends) in presses {
        let job = q.on_press(input, false, 1, 2, &shortcuts);
        match job {
            Some(j) if !j.fast => {
                assert!(sends, "unexpected macro on input {}", input);
                assert_eq!(j.keys, vec![LocalKey::UP]);
            }
            Some(j) => {
                assert_eq!(input, 50);
                assert_eq!(j.keys, vec![LocalKey::RIGHT]);
            }
            None => assert!(!sends, "missing macro on input {}", input),
        }
        assert_eq!(q.spare_stack, Some(vec![LocalKey::UP]));
    }
}

#[test]
fn macro_errors_have_their_messages() {
    assert_eq!(macro_error_message(MacroError::Empty), "keys must not be empty");
    assert_eq!(macro_error_message(MacroError::ContainsResend), "cannot use RESEND key in a macro");
    assert_eq!(macro_error_message(MacroError::OpenNotFirst), "OPEN key must be the first key");
    assert_eq!(macro_error_message(MacroError::ThrowNotLast), "THROW key must be the last key");
    assert_eq!(missing_mapping_message(LocalKey::THROW), "Missing mapping for LocalKey: THROW");
}
