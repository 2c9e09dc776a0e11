use combo_navi::combo::{parse_combo_content, ComboFile};
use combo_navi::config::KeyBindings;
use combo_navi::input::{InputEdge, InputHandler, Key, KeyEvent};
use combo_navi::state::{AppState, UiAction};

fn four_steps() -> ComboFile {
    parse_combo_content("#,Set,,|\n1,a,x,|\nU2,b,y,|\nE,c,z,|\n#,Mid,,|\nL,d,w,|\n!!!!!").unwrap()
}

fn loaded() -> AppState {
    let mut s = AppState::new();
    let title = s.load_combo(four_steps());
    assert_eq!(title, "Set");
    s
}

fn name(s: &str) -> String {
    s.to_string()
}

#[test]
fn new_state_has_no_step() {
    let mut s = AppState::new();
    assert!(s.get_current_command_internal().is_none());
    assert!(s.get_overlay_visible());
    assert_eq!(s.current_index(), 0);
    assert!(s.advance_command().is_none());
    assert!(s.previous_command().is_none());
    assert_eq!(s.current_index(), 0);
    assert!(s.input_handler().get_current_command().is_none());
}

#[test]
fn load_shows_first_step() {
    let s = loaded();
    let info = s.get_current_command_internal().unwrap();
    assert_eq!(info.index, 0);
    assert_eq!(info.total, 4);
    assert_eq!(info.title, "Set");
    assert_eq!(info.key_display, "1");
    assert_eq!(info.character, "a");
    assert_eq!(info.skill_type, "x");
    assert!(!info.is_hold);
    let expected = s.input_handler().get_current_command().unwrap();
    assert_eq!(expected.character, "a");
}

#[test]
fn step_infos_show_each_key() {
    let mut s = loaded();
    let info = s.advance_command().unwrap();
    assert_eq!((info.index, info.key_display.as_str(), info.is_hold), (1, "Hold 2", true));
    let info = s.advance_command().unwrap();
    assert_eq!((info.index, info.key_display.as_str()), (2, "E"));
    let info = s.advance_command().unwrap();
    assert_eq!((info.index, info.key_display.as_str(), info.character.as_str()), (3, "L", "d"));
}

#[test]
fn sequencer_wraps_forward_and_floors_backward() {
    let mut s = loaded();
    for _ in 0..3 {
        s.advance_command();
    }
    assert_eq!(s.current_index(), 3);
    let info = s.advance_command().unwrap();
    assert_eq!(info.index, 0);
    assert_eq!(s.current_index(), 0);
    let info = s.previous_command().unwrap();
    assert_eq!(info.index, 0);
    assert_eq!(s.current_index(), 0);
    s.advance_command();
    s.advance_command();
    assert_eq!(s.previous_command().unwrap().index, 1);
    assert_eq!(s.reset_combo().unwrap().index, 0);
}

#[test]
fn titles_only_combo_has_no_steps() {
    let mut s = AppState::new();
    s.load_combo(parse_combo_content("#,Only,,|").unwrap());
    assert!(s.get_current_command_internal().is_none());
    assert!(s.advance_command().is_none());
    assert_eq!(s.current_index(), 0);
}

#[test]
fn completion_advances_and_retargets_engine() {
    let mut s = loaded();
    let b = KeyBindings::default();
    // Step 0 is a tap on 1.
    let evs = s.handle_edge(InputEdge::KeyPress(Key::Num1), 0);
    assert_eq!(evs, vec![KeyEvent::KeyDown(Key::Num1), KeyEvent::TapComplete(Key::Num1)]);
    let mut actions = Vec::new();
    for ev in evs {
        actions.extend(s.handle_event(ev, &name("1"), &b));
    }
    assert_eq!(actions, vec![UiAction::ComboUpdate]);
    assert_eq!(s.current_index(), 1);
    // Step 1 is a hold on 2: the engine now expects it.
    let expected = s.input_handler().get_current_command().unwrap();
    assert_eq!(expected.character, "b");
    s.handle_edge(InputEdge::KeyRelease(Key::Num1), 10);
    s.handle_edge(InputEdge::KeyPress(Key::Num2), 100);
    let ticks = s.monitor_tick(200);
    assert_eq!(ticks, vec![KeyEvent::HoldProgress(Key::Num2, 100, 300)]);
    assert_eq!(s.handle_event(ticks[0], &name("2"), &b), vec![UiAction::HoldProgress(100, 300)]);
    assert_eq!(s.current_index(), 1);
    let ticks = s.monitor_tick(400);
    assert_eq!(ticks, vec![KeyEvent::HoldComplete(Key::Num2)]);
    assert_eq!(s.handle_event(ticks[0], &name("2"), &b), vec![UiAction::ComboUpdate]);
    assert_eq!(s.current_index(), 2);
}

#[test]
fn scenario_hold_index_unchanged_then_advanced() {
    let mut s = AppState::new();
    s.load_combo(parse_combo_content("U2,a,b,|\nE,c,d,|").unwrap());
    let b = KeyBindings::default();
    let mut all = Vec::new();
    all.extend(s.handle_edge(InputEdge::KeyPress(Key::Num2), 0));
    all.extend(s.monitor_tick(100));
    all.extend(s.handle_edge(InputEdge::KeyRelease(Key::Num2), 150));
    assert_eq!(
        all,
        vec![
            KeyEvent::KeyDown(Key::Num2),
            KeyEvent::HoldProgress(Key::Num2, 100, 300),
            KeyEvent::KeyUp(Key::Num2),
        ]
    );
    for ev in all {
        s.handle_event(ev, &name("2"), &b);
    }
    assert_eq!(s.current_index(), 0);
    s.handle_edge(InputEdge::KeyPress(Key::Num2), 1000);
    assert_eq!(s.monitor_tick(1300), vec![KeyEvent::HoldComplete(Key::Num2)]);
    assert_eq!(s.handle_event(KeyEvent::HoldComplete(Key::Num2), &name("2"), &b), vec![UiAction::ComboUpdate]);
    assert_eq!(s.current_index(), 1);
    assert_eq!(s.handle_edge(InputEdge::KeyRelease(Key::Num2), 1400), vec![KeyEvent::KeyUp(Key::Num2)]);
    assert_eq!(s.current_index(), 1);
}

#[test]
fn arrows_move_between_steps() {
    let mut s = loaded();
    let b = KeyBindings::default();
    assert_eq!(s.handle_event(KeyEvent::KeyDown(Key::LeftArrow), &name("LeftArrow"), &b), vec![]);
    assert_eq!(
        s.handle_event(KeyEvent::KeyDown(Key::RightArrow), &name("RightArrow"), &b),
        vec![UiAction::ComboUpdate]
    );
    assert_eq!(s.current_index(), 1);
    assert_eq!(
        s.handle_event(KeyEvent::KeyDown(Key::LeftArrow), &name("LeftArrow"), &b),
        vec![UiAction::ComboUpdate]
    );
    assert_eq!(s.current_index(), 0);
    let mut empty = AppState::new();
    assert_eq!(empty.handle_event(KeyEvent::KeyDown(Key::RightArrow), &name("RightArrow"), &b), vec![]);
}

#[test]
fn alt_and_bound_keys() {
    let mut s = loaded();
    let b = KeyBindings::default();
    assert_eq!(s.handle_event(KeyEvent::KeyDown(Key::Alt), &name("Alt"), &b), vec![UiAction::AltStatus(true)]);
    assert_eq!(s.handle_event(KeyEvent::KeyUp(Key::AltGr), &name("AltGr"), &b), vec![UiAction::AltStatus(false)]);
    assert_eq!(s.handle_event(KeyEvent::KeyDown(Key::Home), &name("Home"), &b), vec![UiAction::OpenSettings]);
    assert!(s.get_overlay_visible());
    assert_eq!(
        s.handle_event(KeyEvent::KeyDown(Key::F1), &name("F1"), &b),
        vec![UiAction::OverlayVisibility(false)]
    );
    assert!(!s.get_overlay_visible());
    assert_eq!(s.handle_event(KeyEvent::KeyUp(Key::F1), &name("F1"), &b), vec![]);
    assert!(s.toggle_overlay());
    s.set_overlay_visible(false);
    assert!(!s.get_overlay_visible());
}

#[test]
fn custom_handler_is_told_current_step() {
    let s = loaded().with_input_handler(InputHandler::new().with_hold_threshold(120));
    assert_eq!(s.input_handler().hold_threshold(), 120);
    assert_eq!(s.input_handler().get_current_command().unwrap().character, "a");
}
