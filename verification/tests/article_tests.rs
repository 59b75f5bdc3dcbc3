use puller::article::{slug_from_lowered, slugify, PulledArticle};
use puller::date::{parse_date, date_string, Date};
use puller::error::PullError;
use puller::forem::ForemInstance;
use puller::platform::Platform;

fn article(title: &str, published: Option<Date>, draft: bool) -> PulledArticle {
    PulledArticle {
        platform_id: "123".to_string(),
        platform: Platform::Forem(ForemInstance::DevTo),
        title: title.to_string(),
        body_markdown: "Content".to_string(),
        published_at: published,
        url: None,
        tags: vec![],
        series: None,
        canonical_url: None,
        is_draft: draft,
    }
}

#[test]
fn test_slugify() {
    assert_eq!(slugify("Hello World"), "hello-world");
    assert_eq!(
        slugify("Building CLI Tools in Rust"),
        "building-cli-tools-in-rust"
    );
    assert_eq!(slugify("What's New?"), "what-s-new");
    assert_eq!(slugify("Multiple   Spaces"), "multiple-spaces");
}

#[test]
fn test_slugify_edges() {
    assert_eq!(slugify(""), "");
    assert_eq!(slugify("---"), "");
    assert_eq!(slugify("--a--b--"), "a-b");
    assert_eq!(slug_from_lowered("already-lower 42"), "already-lower-42");
}

#[test]
fn test_generate_filename() {
    let article = article(
        "Building CLI Tools in Rust",
        Some(parse_date("2024-03-15").unwrap()),
        false,
    );
    assert_eq!(
        article.generate_filename(),
        "2024-03-15-building-cli-tools-in-rust.md"
    );
}

#[test]
fn test_generate_filename_draft() {
    let article = article("My Draft", None, true);
    assert_eq!(article.generate_filename(), "draft-my-draft.md");
}

#[test]
fn test_parse_date_valid() {
    let d = parse_date("2024-03-15").unwrap();
    assert_eq!(d, Date { year: 2024, month: 3, day: 15 });
    assert_eq!(date_string(&d), "2024-03-15");
}

#[test]
fn test_parse_date_leap_year() {
    assert!(parse_date("2024-02-29").is_ok());
    assert!(parse_date("2023-02-29").is_err());
    assert!(parse_date("2000-02-29").is_ok());
    assert!(parse_date("1900-02-29").is_err());
}

#[test]
fn test_parse_date_invalid() {
    for s in ["nope", "2024-3-15", "2024-13-01", "2024-00-10", "2024-04-31", "20240315", ""] {
        let r = parse_date(s);
        assert!(matches!(r, Err(PullError::InvalidDate(_))), "{}", s);
    }
}

#[test]
fn test_date_ordering() {
    let a = Date { year: 2023, month: 12, day: 31 };
    let b = Date { year: 2024, month: 1, day: 1 };
    assert!(a.lt(&b));
    assert!(!b.lt(&a));
    assert!(!b.lt(&b));
}

#[test]
fn test_date_string_pads() {
    let d = Date { year: 7, month: 1, day: 2 };
    assert_eq!(date_string(&d), "0007-01-02");
}
