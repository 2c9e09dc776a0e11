use combo_navi::combo::{ComboCommand, InputType, KeyIdentifier};
use combo_navi::input::{InputEdge, InputHandler, Key, KeyEvent, KeyState};

fn expected_command(key: KeyIdentifier, hold: bool) -> ComboCommand {
    ComboCommand {
        key,
        input_type: if hold { InputType::Hold { duration_ms: 300 } } else { InputType::Tap },
        character: "c".to_string(),
        skill_type: "s".to_string(),
        memo: String::new(),
        is_title: false,
    }
}

fn handler_expecting(key: KeyIdentifier, hold: bool) -> InputHandler {
    let mut h = InputHandler::new();
    h.set_current_command(Some(expected_command(key, hold)));
    h
}

#[test]
fn key_mapping_covers_both_digit_rows_e_and_mouse() {
    assert_eq!(InputHandler::key_to_identifier(&Key::Num1), Some(KeyIdentifier::Number(1)));
    assert_eq!(InputHandler::key_to_identifier(&Key::Kp9), Some(KeyIdentifier::Number(9)));
    assert_eq!(InputHandler::key_to_identifier(&Key::KeyE), Some(KeyIdentifier::Chain));
    assert_eq!(InputHandler::key_to_identifier(&Key::Unknown(1)), Some(KeyIdentifier::HeavyAttack));
    assert_eq!(InputHandler::key_to_identifier(&Key::Unknown(2)), None);
    assert_eq!(InputHandler::key_to_identifier(&Key::Num0), None);
    assert_eq!(InputHandler::key_to_identifier(&Key::KeyL), None);
}

#[test]
fn new_handler_defaults() {
    let h = InputHandler::new();
    assert_eq!(h.hold_threshold(), 300);
    assert!(h.get_current_command().is_none());
    assert_eq!(h.key_state(Key::Num1), None);
    let h = h.with_hold_threshold(500);
    assert_eq!(h.hold_threshold(), 500);
}

#[test]
fn current_command_round_trips() {
    let h = handler_expecting(KeyIdentifier::Chain, true);
    let c = h.get_current_command().unwrap();
    assert_eq!(c.key, KeyIdentifier::Chain);
    assert_eq!(c.input_type, InputType::Hold { duration_ms: 300 });
    assert_eq!(c.character, "c");
}

#[test]
fn unmatched_key_yields_only_down_and_up() {
    let mut h = handler_expecting(KeyIdentifier::Number(2), false);
    assert_eq!(h.on_key_press(Key::Num3, 0), Some(KeyEvent::KeyDown(Key::Num3)));
    assert_eq!(h.monitor_tick(1000), vec![]);
    assert_eq!(h.on_key_release(Key::Num3, 2000), Some(KeyEvent::KeyUp(Key::Num3)));

    let mut h = handler_expecting(KeyIdentifier::Number(2), true);
    assert_eq!(h.on_key_press(Key::KeyQ, 0), Some(KeyEvent::KeyDown(Key::KeyQ)));
    assert_eq!(h.monitor_tick(1000), vec![]);
    assert_eq!(h.on_key_release(Key::KeyQ, 2000), Some(KeyEvent::KeyUp(Key::KeyQ)));
}

#[test]
fn nothing_expected_degrades_to_down_and_up() {
    let mut h = InputHandler::new();
    assert_eq!(h.on_key_press(Key::Num2, 0), Some(KeyEvent::KeyDown(Key::Num2)));
    assert_eq!(h.monitor_tick(400), vec![]);
    assert_eq!(h.on_key_release(Key::Num2, 500), Some(KeyEvent::KeyUp(Key::Num2)));
}

#[test]
fn tap_completes_at_press_time() {
    let mut h = handler_expecting(KeyIdentifier::Number(2), false);
    assert_eq!(h.on_key_press(Key::Kp2, 10), Some(KeyEvent::TapComplete(Key::Kp2)));
    assert_eq!(
        h.key_state(Key::Kp2),
        Some(KeyState { press_time: 10, hold_triggered: false, consumed: true })
    );
    // Even if the next step is a hold on the same key, the release is plain.
    h.set_current_command(Some(expected_command(KeyIdentifier::Number(2), true)));
    assert_eq!(h.monitor_tick(1000), vec![]);
    assert_eq!(h.on_key_release(Key::Kp2, 1000), Some(KeyEvent::KeyUp(Key::Kp2)));
    assert_eq!(h.key_state(Key::Kp2), None);
}

#[test]
fn early_release_fails_hold_silently() {
    let mut h = handler_expecting(KeyIdentifier::Number(2), true);
    assert_eq!(h.on_key_press(Key::Num2, 0), Some(KeyEvent::KeyDown(Key::Num2)));
    assert_eq!(h.on_key_release(Key::Num2, 150), Some(KeyEvent::KeyUp(Key::Num2)));
    assert_eq!(h.key_state(Key::Num2), None);
}

#[test]
fn release_past_threshold_completes_hold() {
    let mut h = handler_expecting(KeyIdentifier::Number(2), true);
    assert_eq!(h.on_key_press(Key::Num2, 0), Some(KeyEvent::KeyDown(Key::Num2)));
    assert_eq!(h.on_key_release(Key::Num2, 300), Some(KeyEvent::HoldComplete(Key::Num2)));
}

#[test]
fn monitor_completes_hold_exactly_once() {
    let mut h = handler_expecting(KeyIdentifier::Chain, true);
    assert_eq!(h.on_key_press(Key::KeyE, 0), Some(KeyEvent::KeyDown(Key::KeyE)));
    assert_eq!(h.monitor_tick(320), vec![KeyEvent::HoldComplete(Key::KeyE)]);
    assert_eq!(
        h.key_state(Key::KeyE),
        Some(KeyState { press_time: 0, hold_triggered: true, consumed: false })
    );
    assert_eq!(h.monitor_tick(370), vec![]);
    assert_eq!(h.on_key_release(Key::KeyE, 400), Some(KeyEvent::KeyUp(Key::KeyE)));
}

#[test]
fn check_hold_complete_flags_first_due_key() {
    let mut h = handler_expecting(KeyIdentifier::Number(4), true);
    h.on_key_press(Key::Num4, 0);
    h.on_key_press(Key::Kp4, 50);
    assert_eq!(h.check_hold_complete(200), None);
    assert_eq!(h.check_hold_complete(320), Some(Key::Num4));
    assert_eq!(h.check_hold_complete(330), None);
    assert_eq!(h.check_hold_complete(350), Some(Key::Kp4));
    assert_eq!(h.check_hold_complete(400), None);
    assert_eq!(h.on_key_release(Key::Num4, 500), Some(KeyEvent::KeyUp(Key::Num4)));
}

#[test]
fn key_repeat_is_ignored() {
    let mut h = handler_expecting(KeyIdentifier::Number(1), true);
    assert_eq!(h.on_key_press(Key::Num1, 5), Some(KeyEvent::KeyDown(Key::Num1)));
    assert_eq!(h.on_key_press(Key::Num1, 90), None);
    assert_eq!(
        h.key_state(Key::Num1),
        Some(KeyState { press_time: 5, hold_triggered: false, consumed: false })
    );
    let mut t = handler_expecting(KeyIdentifier::Number(1), false);
    assert_eq!(t.on_key_press(Key::Num1, 5), Some(KeyEvent::TapComplete(Key::Num1)));
    assert_eq!(t.on_key_press(Key::Num1, 6), None);
}

#[test]
fn release_without_press_is_key_up() {
    let mut h = handler_expecting(KeyIdentifier::Number(1), true);
    assert_eq!(h.on_key_release(Key::Num1, 1000), Some(KeyEvent::KeyUp(Key::Num1)));
}

#[test]
fn progress_is_monotone_and_below_one() {
    let mut h = handler_expecting(KeyIdentifier::Number(3), true);
    h.on_key_press(Key::Num3, 1000);
    let mut last = 0;
    for now in [1000u64, 1050, 1100, 1150, 1200, 1250] {
        let evs = h.monitor_tick(now);
        assert_eq!(evs.len(), 1);
        match evs[0] {
            KeyEvent::HoldProgress(Key::Num3, held, threshold) => {
                assert!(held >= last);
                assert!(held < threshold);
                assert_eq!(threshold, 300);
                last = held;
            }
            other => panic!("unexpected {:?}", other),
        }
    }
    assert_eq!(h.monitor_tick(1300), vec![KeyEvent::HoldComplete(Key::Num3)]);
    assert_eq!(h.monitor_tick(1350), vec![]);
}

#[test]
fn zero_threshold_completes_at_first_tick() {
    let mut h = handler_expecting(KeyIdentifier::Number(3), true).with_hold_threshold(0);
    h.on_key_press(Key::Num3, 7);
    assert_eq!(h.monitor_tick(7), vec![KeyEvent::HoldComplete(Key::Num3)]);
}

#[test]
fn scenario_hold_on_two() {
    let mut h = handler_expecting(KeyIdentifier::Number(2), true);
    assert_eq!(h.hold_threshold(), 300);
    let mut events = Vec::new();
    events.extend(h.on_key_press(Key::Num2, 0));
    events.extend(h.monitor_tick(100));
    events.extend(h.on_key_release(Key::Num2, 150));
    assert_eq!(
        events,
        vec![
            KeyEvent::KeyDown(Key::Num2),
            KeyEvent::HoldProgress(Key::Num2, 100, 300),
            KeyEvent::KeyUp(Key::Num2),
        ]
    );
    if let KeyEvent::HoldProgress(_, held, threshold) = events[1] {
        let fraction = held as f64 / threshold as f64;
        assert!((fraction - 0.33).abs() < 0.01);
    }

    assert_eq!(h.on_key_press(Key::Num2, 1000), Some(KeyEvent::KeyDown(Key::Num2)));
    assert_eq!(h.monitor_tick(1300), vec![KeyEvent::HoldComplete(Key::Num2)]);
    assert_eq!(h.monitor_tick(1350), vec![]);
    assert_eq!(h.on_key_release(Key::Num2, 1400), Some(KeyEvent::KeyUp(Key::Num2)));
}

#[test]
fn edges_pass_raw_events_and_completions() {
    let mut h = handler_expecting(KeyIdentifier::Number(5), false);
    assert_eq!(
        h.handle_edge(InputEdge::KeyPress(Key::Num5), 0),
        vec![KeyEvent::KeyDown(Key::Num5), KeyEvent::TapComplete(Key::Num5)]
    );
    assert_eq!(h.handle_edge(InputEdge::KeyPress(Key::Num5), 1), vec![KeyEvent::KeyDown(Key::Num5)]);
    assert_eq!(h.handle_edge(InputEdge::KeyRelease(Key::Num5), 2), vec![KeyEvent::KeyUp(Key::Num5)]);
    assert_eq!(h.handle_edge(InputEdge::KeyPress(Key::Alt), 3), vec![KeyEvent::KeyDown(Key::Alt)]);
    assert_eq!(h.key_state(Key::Alt), None);
    assert_eq!(h.handle_edge(InputEdge::KeyRelease(Key::Alt), 4), vec![KeyEvent::KeyUp(Key::Alt)]);
}

#[test]
fn edges_report_hold_completed_on_release() {
    let mut h = handler_expecting(KeyIdentifier::Chain, true);
    assert_eq!(h.handle_edge(InputEdge::KeyPress(Key::KeyE), 0), vec![KeyEvent::KeyDown(Key::KeyE)]);
    assert_eq!(
        h.handle_edge(InputEdge::KeyRelease(Key::KeyE), 450),
        vec![KeyEvent::KeyUp(Key::KeyE), KeyEvent::HoldComplete(Key::KeyE)]
    );
}

#[test]
fn mouse_button_is_the_heavy_attack() {
    let mut h = handler_expecting(KeyIdentifier::HeavyAttack, false);
    assert_eq!(
        h.handle_edge(InputEdge::MouseLeftPress, 0),
        vec![KeyEvent::TapComplete(Key::Unknown(1))]
    );
    assert_eq!(h.handle_edge(InputEdge::MouseLeftPress, 1), vec![]);
    assert_eq!(
        h.handle_edge(InputEdge::MouseLeftRelease, 2),
        vec![KeyEvent::KeyUp(Key::Unknown(1))]
    );
    let mut g = InputHandler::new();
    assert_eq!(g.handle_edge(InputEdge::MouseLeftPress, 0), vec![KeyEvent::KeyDown(Key::Unknown(1))]);
}
