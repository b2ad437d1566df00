use wineenv::errors::EnvError;
use wineenv::tricks::{parse_env_record, pending_tricks, split_tricks, trick_outcome, EnvState};

#[test]
fn split_flattens_groups_at_commas() {
    let groups = vec!["a,b".to_string(), "c".to_string()];
    assert_eq!(split_tricks(&groups), vec!["a".to_string(), "b".to_string(), "c".to_string()]);
}

#[test]
fn split_keeps_empty_names() {
    assert_eq!(
        split_tricks(&vec!["a,,b".to_string()]),
        vec!["a".to_string(), "".to_string(), "b".to_string()]
    );
    assert_eq!(split_tricks(&vec!["".to_string()]), vec!["".to_string()]);
    assert_eq!(split_tricks(&Vec::new()), Vec::<String>::new());
}

#[test]
fn requesting_a_trick_twice_schedules_it_once() {
    let state = EnvState::new();
    let requested = vec!["corefonts".to_string(), "corefonts".to_string()];
    assert_eq!(pending_tricks(&state, &requested), vec!["corefonts".to_string()]);
}

#[test]
fn recorded_tricks_are_skipped() {
    let mut state = EnvState::new();
    state.record_trick(&"corefonts".to_string());
    let requested = vec!["corefonts".to_string(), "vcrun2019".to_string()];
    assert_eq!(pending_tricks(&state, &requested), vec!["vcrun2019".to_string()]);
}

#[test]
fn recording_twice_changes_nothing() {
    let mut state = EnvState::new();
    state.record_trick(&"a".to_string());
    state.record_trick(&"a".to_string());
    assert_eq!(state.tricks(), &vec!["a".to_string()]);
}

#[test]
fn failure_aborts_and_keeps_prior_progress() {
    let mut state = EnvState::new();
    let pending = pending_tricks(
        &state,
        &vec!["a".to_string(), "b".to_string(), "c".to_string()],
    );
    assert_eq!(pending, vec!["a".to_string(), "b".to_string(), "c".to_string()]);

    // A succeeds and is recorded; B's runner fails; C is never attempted.
    assert!(trick_outcome(&mut state, &pending[0], true, 0).is_ok());
    let err = trick_outcome(&mut state, &pending[1], false, 1).unwrap_err();
    match err {
        EnvError::TrickExecution { trick, status } => {
            assert_eq!(trick, "b");
            assert_eq!(status, 1);
        }
        other => panic!("unexpected error {:?}", other),
    }
    assert_eq!(state.tricks(), &vec!["a".to_string()]);

    // Re-requesting the same list skips A and retries B first.
    let again = pending_tricks(
        &state,
        &vec!["a".to_string(), "b".to_string(), "c".to_string()],
    );
    assert_eq!(again, vec!["b".to_string(), "c".to_string()]);
}

#[test]
fn success_recorded_before_next_trick_survives_reload() {
    // The state written right after a trick's success already carries it:
    // a process killed before the next trick finds it on reload.
    let mut state = EnvState::new();
    assert!(trick_outcome(&mut state, &"a".to_string(), true, 0).is_ok());
    let text = state.encode();
    let reloaded = parse_env_record(text.as_str()).expect("parses back");
    assert!(reloaded.contains_trick("a"));
    assert_eq!(reloaded.tricks(), state.tricks());
}

#[test]
fn state_round_trip_restores_the_set() {
    let mut state = EnvState::new();
    state.record_trick(&"corefonts".to_string());
    state.record_trick(&"vcrun2019".to_string());
    let text = state.encode();
    let reloaded = parse_env_record(text.as_str()).expect("parses back");
    assert_eq!(reloaded.tricks(), state.tricks());
}

#[test]
fn empty_record_text_is_empty_state() {
    let state = parse_env_record("").expect("empty text parses");
    assert_eq!(state.tricks().len(), 0);
}

#[test]
fn malformed_state_record_rejected() {
    assert!(parse_env_record("executed_tricks = 3").is_none());
    assert!(parse_env_record("[[broken").is_none());
}

#[test]
fn encoded_state_names_its_key() {
    let mut state = EnvState::new();
    state.record_trick(&"corefonts".to_string());
    let text = state.encode();
    assert!(text.contains("executed_tricks"));
    assert!(text.contains("corefonts"));
}
