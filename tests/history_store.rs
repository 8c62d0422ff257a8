use testsearch::history::{CacheClearOption, PersistedState};

fn s(x: &str) -> String {
    x.to_string()
}

fn legacy(pairs: &[(&str, &str)]) -> PersistedState {
    let entries = pairs.iter().map(|(d, t)| (s(d), s(t))).collect();
    PersistedState::from_parts(None, Some(entries))
}

#[test]
fn migration_turns_legacy_entry_into_history() {
    let mut state = legacy(&[("/proj", "test_a.py::test_x")]);
    state.migrate_settings();
    assert_eq!(state.history(&s("/proj")), Some(vec![s("test_a.py::test_x")]));
    assert!(state.legacy_entries().is_none());
}

#[test]
fn migration_is_idempotent() {
    let mut state = legacy(&[("/proj", "t1"), ("/other", "t2")]);
    state.migrate_settings();
    let once_proj = state.history(&s("/proj"));
    let once_other = state.history(&s("/other"));
    state.migrate_settings();
    assert_eq!(state.history(&s("/proj")), once_proj);
    assert_eq!(state.history(&s("/other")), once_other);
    assert_eq!(state.history_entries().map(|v| v.len()), Some(2));
}

#[test]
fn migration_replaces_history_of_legacy_directory_only() {
    let history = vec![(s("/proj"), vec![s("old1"), s("old2")]), (s("/keep"), vec![s("k")])];
    let mut state = PersistedState::from_parts(Some(history), Some(vec![(s("/proj"), s("new"))]));
    state.migrate_settings();
    assert_eq!(state.history(&s("/proj")), Some(vec![s("new")]));
    assert_eq!(state.history(&s("/keep")), Some(vec![s("k")]));
}

#[test]
fn migration_without_legacy_changes_nothing() {
    let mut state = PersistedState::new();
    state.migrate_settings();
    assert!(state.history_entries().is_none());
    assert!(state.legacy_entries().is_none());
}

#[test]
fn append_keeps_order_and_duplicates() {
    let mut state = PersistedState::new();
    assert_eq!(state.history(&s("/d")), None);
    state.append(s("/d"), s("x1"));
    state.append(s("/d"), s("x2"));
    assert_eq!(state.history(&s("/d")), Some(vec![s("x1"), s("x2")]));
    state.append(s("/d"), s("x1"));
    assert_eq!(state.history(&s("/d")), Some(vec![s("x1"), s("x2"), s("x1")]));
}

#[test]
fn append_is_per_directory() {
    let mut state = PersistedState::new();
    state.append(s("/a"), s("x"));
    state.append(s("/b"), s("y"));
    assert_eq!(state.history(&s("/a")), Some(vec![s("x")]));
    assert_eq!(state.history(&s("/b")), Some(vec![s("y")]));
}

#[test]
fn clear_current_removes_only_that_directory() {
    let history = vec![(s("/d"), vec![s("x")]), (s("/e"), vec![s("y")])];
    let legacy = vec![(s("/d"), s("l1")), (s("/e"), s("l2"))];
    let mut state = PersistedState::from_parts(Some(history), Some(legacy));
    state.clear(CacheClearOption::Current, &s("/d"));
    assert_eq!(state.history(&s("/d")), None);
    assert_eq!(state.history(&s("/e")), Some(vec![s("y")]));
    let legacy_left = state.legacy_entries().unwrap();
    assert_eq!(legacy_left, &vec![(s("/e"), s("l2"))]);
}

#[test]
fn clear_all_empties_everything() {
    let history = vec![(s("/d"), vec![s("x")])];
    let mut state = PersistedState::from_parts(Some(history), Some(vec![(s("/d"), s("l"))]));
    state.clear(CacheClearOption::All, &s("/d"));
    assert!(state.history_entries().is_none());
    assert!(state.legacy_entries().is_none());
}

#[test]
fn from_parts_keeps_last_of_duplicate_directories() {
    let history = vec![(s("/d"), vec![s("a")]), (s("/d"), vec![s("b")])];
    let state = PersistedState::from_parts(Some(history), None);
    assert_eq!(state.history(&s("/d")), Some(vec![s("b")]));
    assert_eq!(state.history_entries().map(|v| v.len()), Some(1));
}

#[test]
fn clear_option_names() {
    assert_eq!(CacheClearOption::from_name("current"), Ok(CacheClearOption::Current));
    assert_eq!(CacheClearOption::from_name("all"), Ok(CacheClearOption::All));
    assert_eq!(
        CacheClearOption::from_name("some"),
        Err(s("invalid cache clear option: some"))
    );
}

fn to_json(state: &PersistedState) -> String {
    let mut doc = serde_json::Map::new();
    if let Some(h) = state.history_entries() {
        let mut m = serde_json::Map::new();
        for (d, tests) in h {
            let list = tests.iter().map(|t| serde_json::Value::String(t.clone())).collect();
            m.insert(d.clone(), serde_json::Value::Array(list));
        }
        doc.insert(s("test_history"), serde_json::Value::Object(m));
    }
    if let Some(l) = state.legacy_entries() {
        let mut m = serde_json::Map::new();
        for (d, t) in l {
            m.insert(d.clone(), serde_json::Value::String(t.clone()));
        }
        doc.insert(s("last_test"), serde_json::Value::Object(m));
    }
    serde_json::to_string(&serde_json::Value::Object(doc)).unwrap()
}

fn from_json(text: &str) -> PersistedState {
    let doc: serde_json::Value = serde_json::from_str(text).unwrap();
    let history = doc.get("test_history").and_then(|v| v.as_object()).map(|m| {
        m.iter()
            .map(|(d, v)| {
                let tests = v
                    .as_array()
                    .unwrap()
                    .iter()
                    .map(|t| t.as_str().unwrap().to_string())
                    .collect();
                (d.clone(), tests)
            })
            .collect()
    });
    let legacy = doc.get("last_test").and_then(|v| v.as_object()).map(|m| {
        m.iter().map(|(d, v)| (d.clone(), v.as_str().unwrap().to_string())).collect()
    });
    PersistedState::from_parts(history, legacy)
}

#[test]
fn cache_round_trip_through_json() {
    let mut state = PersistedState::new();
    state.append(s("/p"), s("a.py::test_1"));
    state.append(s("/p"), s("a.py::TestK::test_2"));
    state.append(s("/q"), s("b.py::test_3"));
    let text = to_json(&state);
    let back = from_json(&text);
    assert_eq!(back.history(&s("/p")), state.history(&s("/p")));
    assert_eq!(back.history(&s("/q")), state.history(&s("/q")));
    assert_eq!(back.history_entries().map(|v| v.len()), Some(2));
    assert!(back.legacy_entries().is_none());
}

#[test]
fn cache_round_trip_keeps_legacy_entries() {
    let state = legacy(&[("/p", "t")]);
    let back = from_json(&to_json(&state));
    assert_eq!(back.legacy_entries(), Some(&vec![(s("/p"), s("t"))]));
    assert!(back.history_entries().is_none());
}

#[test]
fn default_state_is_empty_and_option_parses() {
    let state = PersistedState::default();
    assert!(state.history_entries().is_none());
    assert!(state.legacy_entries().is_none());
    let opt: CacheClearOption = "all".parse().unwrap();
    assert_eq!(opt, CacheClearOption::All);
    assert!("nope".parse::<CacheClearOption>().is_err());
}

#[test]
fn migration_with_empty_legacy_map_keeps_history() {
    let mut state = PersistedState::from_parts(None, Some(vec![]));
    state.migrate_settings();
    assert!(state.history_entries().is_none());
    assert!(state.legacy_entries().is_none());
    let history = vec![(s("/d"), vec![s("x")])];
    let mut state = PersistedState::from_parts(Some(history), Some(vec![]));
    state.migrate_settings();
    assert_eq!(state.history(&s("/d")), Some(vec![s("x")]));
    assert_eq!(state.history_entries().map(|v| v.len()), Some(1));
}
