use puller::error::PullError;
use puller::state::PullState;

#[test]
fn test_state_roundtrip() {
    let mut state = PullState::default();
    state.mark_pulled(
        "devto:123".to_string(),
        "2024-03-15-test-article.md".to_string(),
        1710500000,
    );

    let doc = state.render();

    let loaded = PullState::parse(&doc).unwrap();
    assert!(loaded.is_pulled("devto:123"));
    assert_eq!(
        loaded.get_local_path("devto:123"),
        Some("2024-03-15-test-article.md".to_string())
    );
}

#[test]
fn test_load_nonexistent() {
    let state = PullState::default();
    assert!(state.is_empty());
}

#[test]
fn test_render_exact() {
    let mut state = PullState::default();
    state.mark_pulled("devto:123".to_string(), "a.md".to_string(), 1700000000);
    assert_eq!(state.render(), "9:devto:123,4:a.md,1700000000\n");
}

#[test]
fn test_render_negative_timestamp() {
    let mut state = PullState::default();
    state.mark_pulled("k".to_string(), "p".to_string(), -7);
    let doc = state.render();
    assert_eq!(doc, "1:k,1:p,-7\n");
    let loaded = PullState::parse(&doc).unwrap();
    assert_eq!(loaded.get_pulled_at("k"), Some(-7));
}

#[test]
fn test_roundtrip_awkward_contents() {
    let mut state = PullState::default();
    state.mark_pulled(
        "devto:1,2:3\nx".to_string(),
        "dir/with:odd,chars\n.md".to_string(),
        42,
    );
    state.mark_pulled("".to_string(), "".to_string(), 0);
    let doc = state.render();
    let loaded = PullState::parse(&doc).unwrap();
    assert!(loaded.is_pulled("devto:1,2:3\nx"));
    assert_eq!(
        loaded.get_local_path("devto:1,2:3\nx"),
        Some("dir/with:odd,chars\n.md".to_string())
    );
    assert!(loaded.is_pulled(""));
    assert_eq!(loaded.len(), 2);
}

#[test]
fn test_parse_corrupt() {
    for doc in ["garbage", "9:short,", "1:k,1:p,notanumber\n", "1:k,1:p,5"] {
        let r = PullState::parse(doc);
        assert!(matches!(r, Err(PullError::Json(_))), "{}", doc);
    }
}

#[test]
fn test_parse_duplicate_key() {
    let doc = "1:k,1:p,5\n1:k,1:q,6\n";
    assert!(matches!(PullState::parse(doc), Err(PullError::Json(_))));
}

#[test]
fn test_mark_pulled_overwrites() {
    let mut state = PullState::default();
    state.mark_pulled("k".to_string(), "old.md".to_string(), 1);
    state.mark_pulled("k".to_string(), "new.md".to_string(), 2);
    assert_eq!(state.len(), 1);
    assert_eq!(state.get_local_path("k"), Some("new.md".to_string()));
    assert_eq!(state.get_pulled_at("k"), Some(2));
}

#[test]
fn test_two_loads_equal() {
    let mut state = PullState::default();
    state.mark_pulled("a".to_string(), "a.md".to_string(), 10);
    state.mark_pulled("b".to_string(), "b.md".to_string(), 11);
    let doc = state.render();
    let first = PullState::parse(&doc).unwrap();
    let second = PullState::parse(&doc).unwrap();
    assert_eq!(first.render(), second.render());
    assert_eq!(first.render(), doc);
}
