use mdns_scan::app_state::AppAction;
use mdns_scan::app_state::AppState;
use mdns_scan::app_state::Key;

#[test]
fn starts_viewing_when_a_query_is_supplied() {
    let state = AppState::new(Some(String::from("_http._tcp.local")));
    assert!(!state.is_editing());
    assert!(!state.should_exit());
    assert_eq!(state.query().as_str(), "_http._tcp.local");
}

#[test]
fn starts_editing_an_empty_query_without_one() {
    let state = AppState::new(None);
    assert!(state.is_editing());
    assert!(!state.should_exit());
    assert_eq!(state.query().as_str(), "");
}

#[test]
fn q_quits_while_viewing() {
    let mut state = AppState::new(Some(String::from("x")));
    let action = state.handle_key(Key::Char('q'));
    assert_eq!(action, AppAction::Quit);
    assert!(state.should_exit());
}

#[test]
fn escape_quits_while_viewing() {
    let mut state = AppState::new(Some(String::from("x")));
    let action = state.handle_key(Key::Esc);
    assert_eq!(action, AppAction::Quit);
    assert!(state.should_exit());
}

#[test]
fn slash_enters_editing() {
    let mut state = AppState::new(Some(String::from("x")));
    let action = state.handle_key(Key::Char('/'));
    assert_eq!(action, AppAction::Idle);
    assert!(state.is_editing());
    assert!(!state.should_exit());
    assert_eq!(state.query().as_str(), "x");
}

#[test]
fn other_keys_while_viewing_do_nothing() {
    let mut state = AppState::new(Some(String::from("x")));
    assert_eq!(state.handle_key(Key::Char('a')), AppAction::Idle);
    assert_eq!(state.handle_key(Key::Enter), AppAction::Idle);
    assert_eq!(state.handle_key(Key::Backspace), AppAction::Idle);
    assert_eq!(state.handle_key(Key::Other), AppAction::Idle);
    assert!(!state.is_editing());
    assert_eq!(state.query().as_str(), "x");
}

#[test]
fn typing_extends_the_query() {
    let mut state = AppState::new(None);
    assert_eq!(state.handle_key(Key::Char('a')), AppAction::Idle);
    assert_eq!(state.handle_key(Key::Char('/')), AppAction::Idle);
    assert_eq!(state.handle_key(Key::Char('q')), AppAction::Idle);
    assert!(state.is_editing());
    assert_eq!(state.query().as_str(), "a/q");
}

#[test]
fn backspace_shortens_the_query() {
    let mut state = AppState::new(None);
    state.handle_key(Key::Char('a'));
    state.handle_key(Key::Char('b'));
    assert_eq!(state.handle_key(Key::Backspace), AppAction::Idle);
    assert_eq!(state.query().as_str(), "a");
}

#[test]
fn backspace_on_an_empty_query_is_harmless() {
    let mut state = AppState::new(None);
    assert_eq!(state.handle_key(Key::Backspace), AppAction::Idle);
    assert_eq!(state.query().as_str(), "");
    assert!(state.is_editing());
}

#[test]
fn enter_commits_and_asks_for_a_scan() {
    let mut state = AppState::new(None);
    state.handle_key(Key::Char('s'));
    let action = state.handle_key(Key::Enter);
    assert_eq!(action, AppAction::StartScan);
    assert!(!state.is_editing());
    assert_eq!(state.query().as_str(), "s");
}

#[test]
fn escape_commits_while_editing() {
    let mut state = AppState::new(None);
    state.handle_key(Key::Char('s'));
    let action = state.handle_key(Key::Esc);
    assert_eq!(action, AppAction::StartScan);
    assert!(!state.is_editing());
    assert_eq!(state.query().as_str(), "s");
}
