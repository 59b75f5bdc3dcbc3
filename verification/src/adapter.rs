//! The source-adapter capability: listing a platform's articles page by
//! page and fetching single articles.  Concrete adapters speak the remote
//! protocol; the engine sees only this contract.

use vstd::prelude::*;

use crate::article::{ArticleView, PulledArticle};
use crate::date::Date;
use crate::error::PullError;
use crate::platform::{platform_str, Platform, PlatformView};

verus! {

/// Fixed page-size contract of the paged listing: a page shorter than this
/// is the terminal page, and an adapter must never return a short page that
/// is not the final page.
pub const PER_PAGE: usize = 100;

/// Listing-time filter configuration: an optional inclusive minimum publish
/// date (compared by calendar date) and whether draft articles are kept.
#[derive(Debug, Clone, Copy)]
pub struct PullOptions {
    pub since: Option<Date>,
    pub include_drafts: bool,
}

impl Default for PullOptions {
    /// No date bound, drafts excluded.
    fn default() -> (r: Self)
        ensures
            r.since is None,
            !r.include_drafts,
    {
        PullOptions { since: None, include_drafts: false }
    }
}

/// A lightweight listing record.  Produced only by the listing call; never
/// persisted standalone.
#[derive(Debug, Clone)]
pub struct ArticleMetadata {
    pub id: String,
    pub platform: Platform,
    pub title: String,
    pub published_at: Option<Date>,
    pub url: Option<String>,
    pub is_draft: bool,
}

/// The mathematical model of a listing record.
pub struct MetaView {
    pub id: Seq<char>,
    pub platform: PlatformView,
    pub title: Seq<char>,
    pub published_at: Option<Date>,
    pub url: Option<Seq<char>>,
    pub is_draft: bool,
}

impl View for ArticleMetadata {
    type V = MetaView;

    open spec fn view(&self) -> MetaView {
        MetaView {
            id: self.id@,
            platform: self.platform@,
            title: self.title@,
            published_at: self.published_at,
            url: match &self.url {
                Some(u) => Some(u@),
                None => None,
            },
            is_draft: self.is_draft,
        }
    }
}

/// The stable identity of an article: its platform's string form, a colon,
/// and the platform-local id.
pub open spec fn pid_of(platform: PlatformView, id: Seq<char>) -> Seq<char> {
    platform_str(platform) + ":"@ + id
}

/// The identity of a listing record.
pub open spec fn meta_pid(m: MetaView) -> Seq<char> {
    pid_of(m.platform, m.id)
}

/// The views of a sequence of listing records.
pub open spec fn meta_seq(v: Seq<ArticleMetadata>) -> Seq<MetaView> {
    v.map_values(|m: ArticleMetadata| m@)
}

impl ArticleMetadata {
    /// The serialized identity of this article, `<platform>:<id>`.
    pub fn platform_id(&self) -> (r: String)
        ensures
            r@ == meta_pid(self@),
    {
        self.platform.as_str().concat(":").concat(self.id.as_str())
    }
}

/// The value a listing record's published flag takes when the remote
/// listing omits it.
pub fn default_published() -> (r: bool)
    ensures
        r,
{
    true
}

/// The page of `arts` with the given index under the fixed page size:
/// up to `PER_PAGE` records starting at `page * PER_PAGE`.
pub open spec fn page_slice(arts: Seq<MetaView>, page: int) -> Seq<MetaView> {
    let start = page * PER_PAGE;
    let end = if start + PER_PAGE <= arts.len() {
        start + PER_PAGE
    } else {
        arts.len() as int
    };
    arts.subrange(start, end)
}

/// A source of articles.  The ghost `articles` sequence is the full remote
/// listing in canonical order; `content` maps a platform-local id to the
/// full article a fetch would return.  Errors (transport failures, rate
/// limiting) may occur on any call, so no method promises success; the
/// contracts say what holds of whatever comes back.
pub trait Puller {
    /// The full remote listing, in canonical (page, then in-page) order.
    /// An adapter that does not say what it serves is modelled by an
    /// arbitrary listing.
    open spec fn articles(&self) -> Seq<MetaView> {
        arbitrary()
    }

    /// What a fetch of each id returns.
    open spec fn content(&self) -> Map<Seq<char>, ArticleView> {
        arbitrary()
    }

    /// The platform this adapter pulls from.
    open spec fn platform_view(&self) -> PlatformView {
        arbitrary()
    }

    /// The platform this adapter pulls from.
    fn platform(&self) -> (p: Platform)
        ensures
            p@ == self.platform_view(),
    ;

    /// Lists one page of articles, in listing order.  A returned page is
    /// exactly the page-size slice of the listing, so a short page is
    /// returned exactly for the final page.
    fn list_page(&self, page: usize) -> (r: Result<Vec<ArticleMetadata>, PullError>)
        requires
            (page as int) * (PER_PAGE as int) <= self.articles().len(),
        ensures
            r matches Ok(v) ==> meta_seq(v@) == page_slice(self.articles(), page as int),
    ;

    /// Fetches the full article with the given platform-local id.
    fn fetch_article(&self, id: &str) -> (r: Result<PulledArticle, PullError>)
        ensures
            r matches Ok(a) ==> self.content().contains_key(id@) && a@ == self.content()[id@],
    ;
}

} // verus!
