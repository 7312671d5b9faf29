use yarm::state::{load, save, save_at, save_with, State, StateEnvelope, Stored, STATE_VERSION};

#[test]
fn test_state_roundtrip() {
    let state = State {
        repositories: vec![
            "/home/user/projects/repo-a".to_string(),
            "/home/user/work/repo-b".to_string(),
        ],
        ..State::default()
    };

    let envelope = save(&state);
    assert_eq!(envelope.version, STATE_VERSION);
    let decoded = load(Stored::Decoded(envelope));

    assert!(!decoded.discard_file);
    assert_eq!(decoded.state.repositories.len(), 2);
    assert_eq!(decoded.state.repositories[0], "/home/user/projects/repo-a");
    assert_eq!(decoded.state.repositories[1], "/home/user/work/repo-b");
    assert!(decoded.state.last_scan.is_some());
    assert!(decoded.state.last_scan.unwrap() > 1_600_000_000);
}

#[test]
fn test_empty_state_roundtrip() {
    let envelope = save(&State::default());
    assert_eq!(envelope.version, STATE_VERSION);
    let decoded = load(Stored::Decoded(envelope));
    assert!(decoded.state.repositories.is_empty());
    assert!(decoded.state.last_scan.is_some());
}

#[test]
fn test_old_version_rejected() {
    let envelope = StateEnvelope {
        version: STATE_VERSION - 1,
        state: State { repositories: vec!["/some/repo".to_string()], ..State::default() },
    };
    assert_ne!(envelope.version, STATE_VERSION);
    let decoded = load(Stored::Decoded(envelope));
    assert!(decoded.discard_file);
    assert!(decoded.state.repositories.is_empty());
    assert_eq!(decoded.state.last_scan, None);
}

#[test]
fn saved_state_comes_back_with_its_scan_time() {
    let mut state = State::new(vec!["/a".to_string(), "/b".to_string()]);
    assert_eq!(state.last_scan_time(), None);
    state.mark_scanned();
    assert_eq!(state.repositories, vec!["/a".to_string(), "/b".to_string()]);
    let stamp = state.last_scan_time();
    assert!(stamp.is_some());
    assert!(stamp.unwrap() > 1_600_000_000);
    let back = load(Stored::Decoded(save(&state)));
    assert_eq!(back.state.repositories, vec!["/a".to_string(), "/b".to_string()]);
    assert!(back.state.last_scan >= stamp);
    assert!(!back.discard_file);
}

#[test]
fn saving_at_a_time_sets_that_time() {
    let fresh = State::new(vec!["/a".to_string(), "/b".to_string()]);
    let back = load(Stored::Decoded(save_at(&fresh, 1_700_000_000)));
    assert_eq!(back.state.repositories, vec!["/a".to_string(), "/b".to_string()]);
    assert_eq!(back.state.last_scan, Some(1_700_000_000));
    let mut old = State::new(vec!["/a".to_string()]);
    old.mark_scanned_at(Some(7));
    assert_eq!(save_at(&old, 9).state.last_scan, Some(9));
    assert_eq!(save_with(&old, Some(9)).state.last_scan, Some(9));
    assert_eq!(save_with(&old, None).state.last_scan, Some(7));
    assert_eq!(save_with(&fresh, None).state.last_scan, None);
    assert_eq!(save_with(&fresh, None).version, STATE_VERSION);
    assert_eq!(fresh.last_scan, None);
}

#[test]
fn a_newer_version_is_discarded_too() {
    let envelope = StateEnvelope {
        version: STATE_VERSION + 1,
        state: State { repositories: vec!["/x".to_string()], last_scan: Some(5) },
    };
    let loaded = load(Stored::Decoded(envelope));
    assert!(loaded.discard_file);
    assert!(loaded.state.repositories.is_empty());
    assert_eq!(loaded.state.last_scan, None);
}

#[test]
fn nothing_stored_is_the_empty_state_and_nothing_to_delete() {
    for stored in [Stored::Absent, Stored::Unreadable, Stored::Undecodable] {
        let loaded = load(stored);
        assert!(!loaded.discard_file);
        assert!(loaded.state.repositories.is_empty());
        assert_eq!(loaded.state.last_scan, None);
    }
}

#[test]
fn marking_at_a_time_sets_that_time() {
    let mut state = State::new(vec!["/a".to_string()]);
    state.mark_scanned_at(Some(42));
    assert_eq!(state.last_scan, Some(42));
    assert_eq!(state.last_scan_time(), Some(42));
    state.mark_scanned_at(None);
    assert_eq!(state.last_scan_time(), None);
    assert_eq!(state.repositories, vec!["/a".to_string()]);
    assert_eq!(STATE_VERSION, 2);
}
