use cctx::state::State;

fn name(s: &str) -> Option<String> {
    Some(s.to_string())
}

#[test]
fn default_state_has_no_context() {
    let state = State::default();
    assert_eq!(state.current, None);
    assert_eq!(state.previous, None);
}

#[test]
fn set_current_remembers_the_context_it_replaces() {
    let mut state = State::default();
    state.set_current("work".to_string());
    assert_eq!(state.current, name("work"));
    assert_eq!(state.previous, None);
    state.set_current("home".to_string());
    assert_eq!(state.current, name("home"));
    assert_eq!(state.previous, name("work"));
}

#[test]
fn set_current_to_the_active_context_keeps_previous() {
    let mut state = State { current: name("work"), previous: name("home") };
    state.set_current("work".to_string());
    assert_eq!(state.current, name("work"));
    assert_eq!(state.previous, name("home"));
}

#[test]
fn unset_current_returns_the_active_context() {
    let mut state = State { current: name("work"), previous: name("home") };
    assert_eq!(state.unset_current(), name("work"));
    assert_eq!(state.current, None);
    assert_eq!(state.previous, name("work"));
}

#[test]
fn unset_current_without_active_context_keeps_previous() {
    let mut state = State { current: None, previous: name("home") };
    assert_eq!(state.unset_current(), None);
    assert_eq!(state.current, None);
    assert_eq!(state.previous, name("home"));
}

#[test]
fn is_current_tells_the_active_context() {
    let state = State { current: name("work"), previous: name("home") };
    assert!(state.is_current("work"));
    assert!(!state.is_current("home"));
    assert!(!State::default().is_current("work"));
}

#[test]
fn rename_follows_the_context() {
    let mut state = State { current: name("work"), previous: name("home") };
    assert!(state.rename("work", "job"));
    assert_eq!(state.current, name("job"));
    assert_eq!(state.previous, name("home"));
    assert!(state.rename("home", "house"));
    assert_eq!(state.current, name("job"));
    assert_eq!(state.previous, name("house"));
    assert!(!state.rename("other", "else"));
    assert_eq!(state.current, name("job"));
    assert_eq!(state.previous, name("house"));
}

#[test]
fn forget_previous_only_forgets_the_named_context() {
    let mut state = State { current: name("work"), previous: name("home") };
    assert!(!state.forget_previous("work"));
    assert_eq!(state.previous, name("home"));
    assert!(state.forget_previous("home"));
    assert_eq!(state.previous, None);
    assert_eq!(state.current, name("work"));
}
