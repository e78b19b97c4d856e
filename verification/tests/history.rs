use password_generator::generator::PasswordGenerator;
use password_generator::history::RecentHistory;
use password_generator::persist::encode_history;
use password_generator::persist::load_history;

#[test]
fn eleven_distinct_records_keep_ten_and_evict_the_first() {
    let mut history = RecentHistory::new();
    for i in 0..11 {
        history.record(format!("password-{}", i));
    }
    assert_eq!(history.len(), 10);
    let entries = history.snapshot();
    assert_eq!(entries[0], "password-10");
    assert_eq!(entries[9], "password-1");
    assert!(!entries.contains(&String::from("password-0")));
}

#[test]
fn recording_the_same_password_twice_keeps_one_entry() {
    let mut history = RecentHistory::new();
    history.record(String::from("repeated"));
    history.record(String::from("repeated"));
    assert_eq!(history.len(), 1);
    assert_eq!(history.snapshot(), vec![String::from("repeated")]);
}

#[test]
fn recording_an_existing_password_repositions_it() {
    let mut history = RecentHistory::new();
    history.record(String::from("first"));
    history.record(String::from("second"));
    history.record(String::from("first"));
    assert_eq!(
        history.snapshot(),
        vec![String::from("first"), String::from("second")]
    );
}

#[test]
fn snapshot_is_ordered_newest_first() {
    let mut history = RecentHistory::new();
    history.record(String::from("oldest"));
    history.record(String::from("middle"));
    history.record(String::from("newest"));
    assert_eq!(
        history.snapshot(),
        vec![
            String::from("newest"),
            String::from("middle"),
            String::from("oldest"),
        ]
    );
}

#[test]
fn restore_of_a_snapshot_is_a_no_op() {
    let mut history = RecentHistory::new();
    for i in 0..7 {
        history.record(format!("entry-{}", i));
    }
    let before = history.snapshot();
    let payload = history.snapshot();
    history.restore(payload);
    assert_eq!(history.snapshot(), before);
}

#[test]
fn restore_truncates_an_oversized_payload() {
    let mut entries: Vec<String> = Vec::new();
    for i in 0..12 {
        entries.push(format!("entry-{}", i));
    }
    let mut history = RecentHistory::new();
    history.restore(entries.clone());
    assert_eq!(history.len(), 10);
    assert_eq!(history.snapshot(), entries[..10].to_vec());
}

#[test]
fn restore_keeps_the_first_copy_of_a_duplicate() {
    let mut history = RecentHistory::new();
    history.restore(vec![
        String::from("a"),
        String::from("b"),
        String::from("a"),
    ]);
    assert_eq!(
        history.snapshot(),
        vec![String::from("a"), String::from("b")]
    );
}

#[test]
fn contains_finds_recorded_entries_only() {
    let mut history = RecentHistory::new();
    history.record(String::from("kept"));
    assert!(history.contains(&String::from("kept")));
    assert!(!history.contains(&String::from("missing")));
}

#[test]
fn encode_produces_a_json_array_newest_first() {
    let mut history = RecentHistory::new();
    history.record(String::from("a"));
    history.record(String::from("b"));
    assert_eq!(encode_history(&history), "[\"b\",\"a\"]");
}

#[test]
fn load_parses_a_json_array_newest_first() {
    let history = load_history(Some(String::from("[\"x\",\"y\"]")));
    assert_eq!(
        history.snapshot(),
        vec![String::from("x"), String::from("y")]
    );
}

#[test]
fn load_of_a_missing_or_bad_payload_is_empty() {
    assert_eq!(load_history(None).len(), 0);
    assert_eq!(load_history(Some(String::from("not json"))).len(), 0);
    assert_eq!(load_history(Some(String::from("[1,2]"))).len(), 0);
}

#[test]
fn encode_then_load_round_trips() {
    let mut history = RecentHistory::new();
    for i in 0..5 {
        history.record(format!("pw-{}", i));
    }
    let payload = encode_history(&history);
    let restored = load_history(Some(payload));
    assert_eq!(restored.snapshot(), history.snapshot());
}

#[test]
fn save_payload_records_the_current_password() {
    let mut state = PasswordGenerator::default();
    let shown = state.password.clone();
    let payload = state.save_payload();
    assert_eq!(state.recent_passwords.len(), 1);
    assert_eq!(state.recent_passwords.snapshot()[0], shown);
    assert!(payload.contains(shown.as_str()));
}

#[test]
fn from_saved_restores_the_persisted_history() {
    let state = PasswordGenerator::from_saved(Some(String::from("[\"one\",\"two\"]")));
    assert_eq!(
        state.recent_passwords.snapshot(),
        vec![String::from("one"), String::from("two")]
    );
    assert_eq!(state.password.len(), 16);
    let empty_state = PasswordGenerator::from_saved(None);
    assert_eq!(empty_state.recent_passwords.len(), 0);
}
