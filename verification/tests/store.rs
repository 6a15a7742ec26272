use botfather::state::STATE_VERSION;
use botfather::store::{invalid_backup_path, load_step, CandidateRead, LoadStep};
use botfather::{
    BotfatherState, RuntimeState, SessionKey, SessionMap, SessionRecord, SessionScopeKind,
};

#[test]
fn missing_candidate_passes_to_the_next() {
    let step = load_step("/tmp/dir/botfather_state.v2.json", CandidateRead::Missing, 5);
    assert!(matches!(step, LoadStep::NextCandidate));
}

#[test]
fn unreadable_candidate_fails() {
    let step = load_step("/tmp/dir/botfather_state.v2.json", CandidateRead::Unreadable, 5);
    assert!(matches!(step, LoadStep::Fail));
}

#[test]
fn parsed_candidate_is_brought_up_to_date() {
    let legacy = SessionKey {
        room_id: "!room:example.org".into(),
        scope_kind: SessionScopeKind::Thread,
        thread_root_event_id: None,
        reply_root_event_id: Some("$r".into()),
        bot_id: "crew-main".into(),
    };
    let mut sessions = SessionMap::new();
    sessions.insert(
        legacy.clone(),
        SessionRecord {
            key: legacy,
            runtime_profile_id: "crew-runtime".into(),
            session_id: "s".into(),
        },
    );
    let state = BotfatherState {
        version: 0,
        runtime: RuntimeState {
            active_sessions: sessions,
        },
        ..BotfatherState::default()
    };
    match load_step("/tmp/dir/botfather_state.v2.json", CandidateRead::Parsed(state), 5) {
        LoadStep::Done(state) => {
            assert_eq!(state.version, STATE_VERSION);
            let entries = state.runtime.active_sessions.entries();
            assert_eq!(entries.len(), 1);
            assert_eq!(entries[0].0.scope_kind, SessionScopeKind::ReplyRoot);
            assert_eq!(entries[0].1.session_id, "s");
        }
        _ => panic!("a parsed state is used"),
    }
}

#[test]
fn unparsable_candidate_is_backed_up_and_reset() {
    match load_step("/tmp/dir/botfather_state.v2.json", CandidateRead::Unparsable, 1700000000) {
        LoadStep::BackUpAndReset { backup, state } => {
            assert_eq!(backup, "/tmp/dir/botfather_state.v2.invalid-1700000000.json");
            assert_eq!(
                backup,
                invalid_backup_path("/tmp/dir/botfather_state.v2.json", 1700000000)
            );
            assert_eq!(state.version, STATE_VERSION);
            assert!(state.bots.is_empty());
            assert!(state.runtime.active_sessions.is_empty());
        }
        _ => panic!("an unparsable file is backed up"),
    }
}

#[test]
fn backup_names_write_the_timestamp_in_decimal() {
    assert_eq!(invalid_backup_path("/d/a.json", 0), "/d/a.invalid-0.json");
    assert_eq!(invalid_backup_path("/d/a.json", 10), "/d/a.invalid-10.json");
    assert_eq!(
        invalid_backup_path("/d/a.json", u64::MAX),
        "/d/a.invalid-18446744073709551615.json"
    );
}
