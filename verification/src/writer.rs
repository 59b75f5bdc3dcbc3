//! The persistence-sink capability and the naming rule articles are stored
//! under.  The sink turns a fetched article into a stored artifact and
//! reports its path; naming and layout decisions live here, actual file
//! I/O lives with the concrete sink.

use vstd::prelude::*;

use crate::article::{filename_spec, ArticleView, PulledArticle};
use crate::date::date_valid;
use crate::error::PullError;
use crate::platform::platform_str;

verus! {

/// How pulled articles are laid out under the output directory.
#[derive(Debug, Clone, Copy, PartialEq, Eq, Structural)]
pub enum FolderStructure {
    /// One subdirectory per platform: `content/devto/article.md`
    Platform,
    /// Everything in one directory: `content/article.md`
    Flat,
}

impl Default for FolderStructure {
    /// Platform subdirectories.
    fn default() -> (r: Self)
        ensures
            r == FolderStructure::Platform,
    {
        FolderStructure::Platform
    }
}

/// The sink-relative path an article is stored under: its file name,
/// prefixed with the platform directory when the layout asks for one.
pub open spec fn relative_path_spec(structure: FolderStructure, a: ArticleView) -> Seq<char> {
    match structure {
        FolderStructure::Flat => filename_spec(a.published_at, a.title),
        FolderStructure::Platform => platform_str(a.platform) + "/"@ + filename_spec(
            a.published_at,
            a.title,
        ),
    }
}

/// Decides where pulled articles are stored.  The concrete file writing
/// wraps this; the naming rule itself is pure.
#[derive(Debug, Clone)]
pub struct Writer {
    pub output_dir: String,
    pub dry_run: bool,
    pub structure: FolderStructure,
}

impl Writer {
    /// A writer for the given output directory.
    pub fn new(output_dir: String, dry_run: bool, structure: FolderStructure) -> (r: Writer)
        ensures
            r.output_dir == output_dir,
            r.dry_run == dry_run,
            r.structure == structure,
    {
        Writer { output_dir, dry_run, structure }
    }

    /// The sink-relative path the given article is stored under.
    pub fn relative_path(&self, article: &PulledArticle) -> (r: String)
        requires
            article.published_at matches Some(d) ==> date_valid(d),
        ensures
            r@ == relative_path_spec(self.structure, article@),
    {
        let filename = article.generate_filename();
        match self.structure {
            FolderStructure::Flat => filename,
            FolderStructure::Platform => {
                article.platform.as_str().concat("/").concat(filename.as_str())
            },
        }
    }
}

/// A persistence sink.  `path_of` is its deterministic naming rule;
/// `artifacts` the set of paths it has stored; `is_dry` whether it only
/// previews.  A dry sink never changes its artifacts, so a dry run can
/// compute the paths it would write without performing I/O.
pub trait Sink {
    /// The sink's naming rule.  A sink that does not say how it names is
    /// modelled by an arbitrary rule.
    open spec fn path_of(&self, a: ArticleView) -> Seq<char> {
        arbitrary()
    }

    /// The artifact paths this sink has stored.
    open spec fn artifacts(&self) -> Set<Seq<char>> {
        arbitrary()
    }

    /// Whether this sink previews instead of writing.
    open spec fn is_dry(&self) -> bool {
        arbitrary()
    }

    /// Stores the article (or, for a dry sink, pretends to) and returns its
    /// sink-relative path.  A failed write may leave a partial artifact,
    /// but only at this article's own path.
    fn persist(&mut self, article: &PulledArticle) -> (r: Result<String, PullError>)
        ensures
            forall|x: ArticleView| final (self).path_of(x) == old(self).path_of(x),
            final (self).is_dry() == old(self).is_dry(),
            r matches Ok(p) ==> p@ == old(self).path_of(article@),
            old(self).is_dry() ==> final (self).artifacts() == old(self).artifacts(),
            (!old(self).is_dry() && r matches Ok(p)) ==> final (self).artifacts() == old(
                self,
            ).artifacts().insert(old(self).path_of(article@)),
            (!old(self).is_dry() && r matches Err(_)) ==> (final (self).artifacts() == old(
                self,
            ).artifacts() || final (self).artifacts() == old(self).artifacts().insert(
                old(self).path_of(article@),
            )),
    ;
}

/// A sink that never writes: it computes the path the article would be
/// stored under and leaves everything else untouched.  This is what a dry
/// run uses.  It succeeds exactly when the article's publish date, if
/// present, is a real calendar date.
pub struct PreviewSink {
    pub writer: Writer,
}

impl Sink for PreviewSink {
    open spec fn path_of(&self, a: ArticleView) -> Seq<char> {
        relative_path_spec(self.writer.structure, a)
    }

    open spec fn artifacts(&self) -> Set<Seq<char>> {
        Set::empty()
    }

    open spec fn is_dry(&self) -> bool {
        true
    }

    fn persist(&mut self, article: &PulledArticle) -> (r: Result<String, PullError>)
        ensures
            r is Ok <==> (match article.published_at {
                Some(d) => date_valid(d),
                None => true,
            }),
            r matches Err(e) ==> e matches PullError::InvalidDate(_),
    {
        if match &article.published_at {
            Some(d) => d.valid(),
            None => true,
        } {
            Ok(self.writer.relative_path(article))
        } else {
            Err(PullError::InvalidDate(String::from_str("article has an impossible publish date")))
        }
    }
}

} // verus!
