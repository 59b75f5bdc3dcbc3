use std::cell::{Cell, RefCell};

use puller::adapter::{default_published, ArticleMetadata, PullOptions, Puller};
use puller::article::PulledArticle;
use puller::config::Config;
use puller::date::{parse_date, Date};
use puller::devto::{fetch_response_error, list_response_error, retry_after_seconds};
use puller::engine::run;
use puller::error::PullError;
use puller::forem::ForemInstance;
use puller::platform::Platform;
use puller::state::PullState;
use puller::statedoc::StateStore;
use puller::writer::{FolderStructure, PreviewSink, Sink, Writer};

fn devto() -> Platform {
    Platform::Forem(ForemInstance::DevTo)
}

fn article(id: &str, title: &str, published: Option<Date>, draft: bool) -> PulledArticle {
    PulledArticle {
        platform_id: id.to_string(),
        platform: devto(),
        title: title.to_string(),
        body_markdown: format!("body of {}", id),
        published_at: published,
        url: None,
        tags: vec!["rust".to_string()],
        series: None,
        canonical_url: None,
        is_draft: draft,
    }
}

struct MockPuller {
    arts: Vec<PulledArticle>,
    list_calls: Cell<usize>,
    fetch_log: RefCell<Vec<String>>,
}

impl MockPuller {
    fn new(arts: Vec<PulledArticle>) -> MockPuller {
        MockPuller {
            arts,
            list_calls: Cell::new(0),
            fetch_log: RefCell::new(Vec::new()),
        }
    }
}

impl Puller for MockPuller {
    fn platform(&self) -> Platform {
        devto()
    }

    fn list_page(&self, page: usize) -> Result<Vec<ArticleMetadata>, PullError> {
        self.list_calls.set(self.list_calls.get() + 1);
        let start = (page * 100).min(self.arts.len());
        let end = (start + 100).min(self.arts.len());
        let mut v = Vec::new();
        for a in &self.arts[start..end] {
            v.push(ArticleMetadata {
                id: a.platform_id.clone(),
                platform: a.platform.clone(),
                title: a.title.clone(),
                published_at: a.published_at,
                url: a.url.clone(),
                is_draft: a.is_draft,
            });
        }
        Ok(v)
    }

    fn fetch_article(&self, id: &str) -> Result<PulledArticle, PullError> {
        self.fetch_log.borrow_mut().push(id.to_string());
        for a in &self.arts {
            if a.platform_id == id {
                return Ok(a.clone());
            }
        }
        Err(PullError::NotFound(id.to_string()))
    }
}

struct MockSink {
    dry: bool,
    fail_after: Option<usize>,
    calls: Cell<usize>,
    written: RefCell<Vec<String>>,
}

impl MockSink {
    fn new(dry: bool) -> MockSink {
        MockSink {
            dry,
            fail_after: None,
            calls: Cell::new(0),
            written: RefCell::new(Vec::new()),
        }
    }
}

impl Sink for MockSink {
    fn persist(&mut self, article: &PulledArticle) -> Result<String, PullError> {
        let n = self.calls.get() + 1;
        self.calls.set(n);
        if let Some(k) = self.fail_after {
            if n > k {
                return Err(PullError::Io("disk full".to_string()));
            }
        }
        let path = format!("{}.md", article.platform_id);
        if !self.dry {
            self.written.borrow_mut().push(path.clone());
        }
        Ok(path)
    }
}

struct MockStore {
    doc: String,
    saves: Cell<usize>,
}

impl MockStore {
    fn new() -> MockStore {
        MockStore {
            doc: String::new(),
            saves: Cell::new(0),
        }
    }
}

impl StateStore for MockStore {
    fn save(&mut self, state: &PullState) -> Result<(), PullError> {
        self.saves.set(self.saves.get() + 1);
        self.doc = state.render();
        Ok(())
    }
}

fn all_filter() -> PullOptions {
    PullOptions {
        since: None,
        include_drafts: true,
    }
}

#[test]
fn idempotent_second_run_skips_everything() {
    let source = MockPuller::new(vec![
        article("1", "One", Some(Date { year: 2024, month: 1, day: 5 }), false),
        article("2", "Two", None, false),
    ]);
    let mut state = PullState::default();
    let mut store = MockStore::new();

    let mut sink = MockSink::new(false);
    let rep1 = run(&source, &mut sink, &mut store, &mut state, &all_filter(), false, false, 100).unwrap();
    assert_eq!(rep1.pulled, 2);
    assert_eq!(rep1.skipped, 0);
    let fetches_after_first = source.fetch_log.borrow().len();

    let mut sink2 = MockSink::new(false);
    let rep2 = run(&source, &mut sink2, &mut store, &mut state, &all_filter(), false, false, 200).unwrap();
    assert_eq!(rep2.pulled, 0);
    assert_eq!(rep2.skipped, 2);
    assert_eq!(source.fetch_log.borrow().len(), fetches_after_first);
}

#[test]
fn dedup_never_fetches_known_identity() {
    let source = MockPuller::new(vec![
        article("1", "One", None, false),
        article("2", "Two", None, false),
    ]);
    let mut state = PullState::default();
    state.mark_pulled("devto:1".to_string(), "already.md".to_string(), 1);
    let mut store = MockStore::new();
    let mut sink = MockSink::new(false);
    let rep = run(&source, &mut sink, &mut store, &mut state, &all_filter(), false, false, 100).unwrap();
    assert_eq!(rep.pulled, 1);
    assert_eq!(rep.skipped, 1);
    assert!(!source.fetch_log.borrow().contains(&"1".to_string()));
    assert_eq!(rep.skipped_paths, vec!["already.md".to_string()]);
    assert_eq!(state.get_local_path("devto:1"), Some("already.md".to_string()));
}

#[test]
fn force_refetches_and_overwrites() {
    let source = MockPuller::new(vec![article("1", "One", None, false)]);
    let mut state = PullState::default();
    let mut store = MockStore::new();
    let mut sink = MockSink::new(false);
    run(&source, &mut sink, &mut store, &mut state, &all_filter(), false, false, 100).unwrap();
    assert_eq!(state.get_pulled_at("devto:1"), Some(100));

    let mut sink2 = MockSink::new(false);
    let rep = run(&source, &mut sink2, &mut store, &mut state, &all_filter(), true, false, 200).unwrap();
    assert_eq!(rep.pulled, 1);
    assert_eq!(rep.skipped, 0);
    assert_eq!(state.get_pulled_at("devto:1"), Some(200));
    assert_eq!(source.fetch_log.borrow().len(), 2);
}

#[test]
fn date_filter_boundary() {
    let on_boundary = article("1", "On", Some(Date { year: 2024, month: 1, day: 1 }), false);
    let day_before = article("2", "Before", Some(Date { year: 2023, month: 12, day: 31 }), false);
    let undated = article("3", "Undated", None, false);
    let source = MockPuller::new(vec![on_boundary, day_before, undated]);
    let filter = PullOptions {
        since: Some(parse_date("2024-01-01").unwrap()),
        include_drafts: true,
    };
    let mut state = PullState::default();
    let mut store = MockStore::new();
    let mut sink = MockSink::new(false);
    let rep = run(&source, &mut sink, &mut store, &mut state, &filter, false, false, 100).unwrap();
    assert_eq!(rep.total, 2);
    assert_eq!(rep.pulled, 2);
    assert!(state.is_pulled("devto:1"));
    assert!(!state.is_pulled("devto:2"));
    assert!(state.is_pulled("devto:3"));
}

#[test]
fn draft_filter_excludes_drafts() {
    let source = MockPuller::new(vec![
        article("1", "Published", None, false),
        article("2", "Draft", None, true),
    ]);
    let filter = PullOptions {
        since: None,
        include_drafts: false,
    };
    let mut state = PullState::default();
    let mut store = MockStore::new();
    let mut sink = MockSink::new(false);
    let rep = run(&source, &mut sink, &mut store, &mut state, &filter, false, false, 100).unwrap();
    assert_eq!(rep.total, 1);
    assert_eq!(rep.pulled, 1);
    assert_eq!(rep.skipped, 0);
    assert!(!state.is_pulled("devto:2"));
}

#[test]
fn dry_run_is_pure() {
    let source = MockPuller::new(vec![article("1", "One", None, false)]);
    let mut state = PullState::default();
    state.mark_pulled("devto:9".to_string(), "nine.md".to_string(), 5);
    let mut store = MockStore::new();
    store.doc = state.render();
    let doc_before = store.doc.clone();

    let mut sink = MockSink::new(true);
    let rep = run(&source, &mut sink, &mut store, &mut state, &all_filter(), false, true, 100).unwrap();
    assert_eq!(rep.pulled, 1);
    assert_eq!(rep.paths, vec!["1.md".to_string()]);
    assert_eq!(store.doc, doc_before);
    assert_eq!(store.saves.get(), 0);
    assert!(sink.written.borrow().is_empty());
    assert!(!state.is_pulled("devto:1"));
}

#[test]
fn pagination_stops_after_short_page() {
    let mut arts = Vec::new();
    for i in 0..237 {
        arts.push(article(&format!("{}", i), &format!("T{}", i), None, false));
    }
    let source = MockPuller::new(arts);
    let mut state = PullState::default();
    let mut store = MockStore::new();
    let mut sink = MockSink::new(false);
    let rep = run(&source, &mut sink, &mut store, &mut state, &all_filter(), false, false, 100).unwrap();
    assert_eq!(source.list_calls.get(), 3);
    assert_eq!(rep.pages, 3);
    assert_eq!(rep.total, 237);
    assert_eq!(rep.pulled, 237);
}

#[test]
fn crash_after_first_item_keeps_it_recorded() {
    let source = MockPuller::new(vec![
        article("1", "One", None, false),
        article("2", "Two", None, false),
    ]);
    let mut state = PullState::default();
    let mut store = MockStore::new();
    let mut sink = MockSink::new(false);
    sink.fail_after = Some(1);
    let r = run(&source, &mut sink, &mut store, &mut state, &all_filter(), false, false, 100);
    assert!(matches!(r, Err(PullError::Io(_))));

    // Only the first item's artifact was written before the failure.
    assert_eq!(*sink.written.borrow(), vec!["1.md".to_string()]);

    let recovered = PullState::parse(&store.doc).unwrap();
    assert!(recovered.is_pulled("devto:1"));
    let mut state2 = recovered;
    let mut store2 = MockStore::new();
    let mut sink2 = MockSink::new(false);
    let before = source.fetch_log.borrow().len();
    let rep = run(&source, &mut sink2, &mut store2, &mut state2, &all_filter(), false, false, 200).unwrap();
    assert_eq!(rep.pulled, 1);
    assert_eq!(rep.skipped, 1);
    assert_eq!(source.fetch_log.borrow().len(), before + 1);
    assert_eq!(source.fetch_log.borrow().last(), Some(&"2".to_string()));
}

#[test]
fn end_to_end_scenario() {
    let dated = article("1", "Dated", Some(Date { year: 2024, month: 1, day: 1 }), false);
    let undated_draft = article("2", "Draft", None, true);
    let source = MockPuller::new(vec![dated, undated_draft]);
    let filter = PullOptions {
        since: Some(parse_date("2024-01-01").unwrap()),
        include_drafts: false,
    };
    let mut state = PullState::default();
    let mut store = MockStore::new();
    let mut sink = MockSink::new(false);
    let rep = run(&source, &mut sink, &mut store, &mut state, &filter, false, false, 100).unwrap();
    assert_eq!(rep.pulled, 1);
    assert_eq!(rep.skipped, 0);
    assert_eq!(state.len(), 1);
    assert!(state.is_pulled("devto:1"));
}

#[test]
fn listing_failure_leaves_state_alone() {
    struct FailingPuller;
    impl Puller for FailingPuller {
        fn platform(&self) -> Platform {
            devto()
        }
        fn list_page(&self, _page: usize) -> Result<Vec<ArticleMetadata>, PullError> {
            Err(PullError::RateLimited(30))
        }
        fn fetch_article(&self, id: &str) -> Result<PulledArticle, PullError> {
            Err(PullError::NotFound(id.to_string()))
        }
    }
    let mut state = PullState::default();
    let mut store = MockStore::new();
    let mut sink = MockSink::new(false);
    let r = run(&FailingPuller, &mut sink, &mut store, &mut state, &all_filter(), false, false, 1);
    assert!(matches!(r, Err(PullError::RateLimited(30))));
    assert!(state.is_empty());
    assert_eq!(store.saves.get(), 0);
}

#[test]
fn response_classification() {
    match list_response_error(429, Some("5"), "") {
        Some(PullError::RateLimited(5)) => {}
        other => panic!("{:?}", other),
    }
    match list_response_error(429, None, "") {
        Some(PullError::RateLimited(60)) => {}
        other => panic!("{:?}", other),
    }
    match list_response_error(429, Some("soon"), "") {
        Some(PullError::RateLimited(60)) => {}
        other => panic!("{:?}", other),
    }
    match list_response_error(500, None, "oops") {
        Some(PullError::Api(m)) => assert_eq!(m, "Dev.to API returned 500: oops"),
        other => panic!("{:?}", other),
    }
    assert!(list_response_error(200, None, "").is_none());
    match fetch_response_error(404, None, "", "77") {
        Some(PullError::NotFound(id)) => assert_eq!(id, "77"),
        other => panic!("{:?}", other),
    }
    assert!(fetch_response_error(201, None, "", "77").is_none());
}

#[test]
fn retry_after_parsing() {
    assert_eq!(retry_after_seconds(Some("120")), 120);
    assert_eq!(retry_after_seconds(Some("bogus")), 60);
    assert_eq!(retry_after_seconds(None), 60);
    assert_eq!(retry_after_seconds(Some("")), 60);
}

#[test]
fn config_key_lookup() {
    let with_key = Config {
        forem_api_key: Some("SECRET-REDACTED".to_string()),
    };
    assert_eq!(with_key.forem_api_key().unwrap(), "SECRET-REDACTED");
    let without = Config { forem_api_key: None };
    assert!(matches!(
        without.forem_api_key(),
        Err(PullError::MissingConfig(_))
    ));
}

#[test]
fn default_published_is_true() {
    assert!(default_published());
}

#[test]
fn platform_id_format() {
    let meta = ArticleMetadata {
        id: "123".to_string(),
        platform: devto(),
        title: "T".to_string(),
        published_at: None,
        url: None,
        is_draft: false,
    };
    assert_eq!(meta.platform_id(), "devto:123");
}

#[test]
fn writer_paths() {
    let a = article("123", "Test Article", Some(Date { year: 2024, month: 3, day: 15 }), false);
    let flat = Writer::new("out".to_string(), false, FolderStructure::Flat);
    assert_eq!(flat.relative_path(&a), "2024-03-15-test-article.md");
    let platform = Writer::new("out".to_string(), false, FolderStructure::Platform);
    assert_eq!(platform.relative_path(&a), "devto/2024-03-15-test-article.md");
}

#[test]
fn preview_sink_only_names() {
    let a = article("123", "Test Article", Some(Date { year: 2024, month: 3, day: 15 }), false);
    let mut sink = PreviewSink {
        writer: Writer::new("out".to_string(), true, FolderStructure::Flat),
    };
    assert_eq!(sink.persist(&a).unwrap(), "2024-03-15-test-article.md");
    let undated = article("124", "No Date", None, true);
    assert_eq!(sink.persist(&undated).unwrap(), "draft-no-date.md");
    let impossible = article("125", "Bad", Some(Date { year: 2023, month: 2, day: 29 }), false);
    assert!(matches!(
        sink.persist(&impossible),
        Err(PullError::InvalidDate(_))
    ));
}
