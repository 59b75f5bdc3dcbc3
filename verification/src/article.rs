//! Full article records and the naming helpers used when they are stored.

use vstd::prelude::*;

use crate::date::{date_str_spec, date_string, date_valid, Date};
use crate::platform::{Platform, PlatformView};
use crate::text::{lower_of, lowercase, push_char, str_eq};

verus! {

/// A complete article as fetched from a platform.  Immutable once fetched
/// within a run.
#[derive(Debug, Clone)]
pub struct PulledArticle {
    pub platform_id: String,
    pub platform: Platform,
    pub title: String,
    pub body_markdown: String,
    pub published_at: Option<Date>,
    pub url: Option<String>,
    pub tags: Vec<String>,
    pub series: Option<String>,
    pub canonical_url: Option<String>,
    pub is_draft: bool,
}

/// The mathematical model of a full article.
pub struct ArticleView {
    pub platform_id: Seq<char>,
    pub platform: PlatformView,
    pub title: Seq<char>,
    pub body_markdown: Seq<char>,
    pub published_at: Option<Date>,
    pub url: Option<Seq<char>>,
    pub tags: Seq<Seq<char>>,
    pub series: Option<Seq<char>>,
    pub canonical_url: Option<Seq<char>>,
    pub is_draft: bool,
}

impl View for PulledArticle {
    type V = ArticleView;

    open spec fn view(&self) -> ArticleView {
        ArticleView {
            platform_id: self.platform_id@,
            platform: self.platform@,
            title: self.title@,
            body_markdown: self.body_markdown@,
            published_at: self.published_at,
            url: match &self.url {
                Some(u) => Some(u@),
                None => None,
            },
            tags: self.tags.deep_view(),
            series: match &self.series {
                Some(s) => Some(s@),
                None => None,
            },
            canonical_url: match &self.canonical_url {
                Some(u) => Some(u@),
                None => None,
            },
            is_draft: self.is_draft,
        }
    }
}

/// True when `c` is an ASCII letter or digit.
pub open spec fn is_alnum(c: char) -> bool {
    ('0' <= c && c <= '9') || ('a' <= c && c <= 'z') || ('A' <= c && c <= 'Z')
}

/// The slug of `s` starting from the given state: `emitted` records whether
/// an alphanumeric character has been written already, `gap` whether a
/// separator has been seen since then.  Runs of alphanumerics are kept and
/// joined by single dashes; everything else separates.
pub open spec fn slug_rec(s: Seq<char>, emitted: bool, gap: bool) -> Seq<char>
    decreases s.len(),
{
    if s.len() == 0 {
        Seq::empty()
    } else if is_alnum(s[0]) {
        (if emitted && gap {
            seq!['-', s[0]]
        } else {
            seq![s[0]]
        }) + slug_rec(s.skip(1), true, false)
    } else {
        slug_rec(s.skip(1), emitted, true)
    }
}

/// The slug of a character sequence: its runs of ASCII alphanumerics,
/// joined by single dashes.
pub open spec fn slug_of(s: Seq<char>) -> Seq<char> {
    slug_rec(s, false, false)
}

/// The file name an article is stored under: the publish date (or `draft`)
/// followed by the slug of the lowercased title, with a `.md` extension.
pub open spec fn filename_spec(published_at: Option<Date>, title: Seq<char>) -> Seq<char> {
    (match published_at {
        Some(d) => date_str_spec(d),
        None => "draft"@,
    }) + "-"@ + slug_of(lower_of(title)) + ".md"@
}

/// The exec counterpart of `is_alnum`.
pub fn is_alnum_char(c: char) -> (r: bool)
    ensures
        r == is_alnum(c),
{
    ('0' <= c && c <= '9') || ('a' <= c && c <= 'z') || ('A' <= c && c <= 'Z')
}

/// The slug of an already-lowercased title, exactly as `slug_of` describes
/// it.
pub fn slug_from_lowered(s: &str) -> (r: String)
    ensures
        r@ == slug_of(s@),
{
    let n = s.unicode_len();
    let mut out = String::new();
    let mut emitted = false;
    let mut gap = false;
    let mut i: usize = 0;
    proof {
        assert(s@.skip(0) =~= s@);
        assert(out@ + slug_rec(s@, false, false) =~= slug_rec(s@, false, false));
    }
    while i < n
        invariant
            n == s@.len(),
            i <= n,
            slug_of(s@) == out@ + slug_rec(s@.skip(i as int), emitted, gap),
        decreases n - i,
    {
        let c = s.get_char(i);
        proof {
            assert(s@.skip(i as int)[0] == s@[i as int]);
            assert(s@.skip(i as int).skip(1) =~= s@.skip(i + 1));
        }
        if is_alnum_char(c) {
            if emitted && gap {
                push_char(&mut out, '-');
            }
            push_char(&mut out, c);
            emitted = true;
            gap = false;
        } else {
            gap = true;
        }
        proof {
            assert(slug_of(s@) == out@ + slug_rec(s@.skip(i + 1), emitted, gap)) by {
                assert(out@ + slug_rec(s@.skip(i + 1), emitted, gap) =~= slug_of(s@));
            }
        }
        i = i + 1;
    }
    proof {
        assert(s@.skip(n as int) =~= Seq::<char>::empty());
        assert(out@ =~= slug_of(s@));
    }
    out
}

/// Turns a title into a slug: lowercase it, keep runs of ASCII
/// alphanumerics, and join the runs with single dashes.
pub fn slugify(title: &str) -> (r: String)
    ensures
        r@ == slug_of(lower_of(title@)),
{
    let lower = lowercase(title);
    slug_from_lowered(lower.as_str())
}

impl PulledArticle {
    /// The file name this article is stored under.
    pub fn generate_filename(&self) -> (r: String)
        requires
            self.published_at matches Some(d) ==> date_valid(d),
        ensures
            r@ == filename_spec(self@.published_at, self@.title),
    {
        let prefix: String = match &self.published_at {
            Some(d) => date_string(d),
            None => String::from_str("draft"),
        };
        prefix.concat("-").concat(slugify(self.title.as_str()).as_str()).concat(".md")
    }
}

} // verus!
