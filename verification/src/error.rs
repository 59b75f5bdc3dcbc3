//! The error taxonomy of a pull run.  Every failure during listing, fetching
//! or persisting aborts the run with one of these; none is silently
//! swallowed.

use vstd::prelude::*;

verus! {

/// Errors raised by a pull run.
///
/// Transport- and serialization-layer failures carry the underlying error's
/// message as a plain string so that callers can report it.
#[derive(Debug, Clone)]
pub enum PullError {
    /// The remote API answered with a non-success status and a body.
    Api(String),
    /// The HTTP request itself failed (network or protocol layer).
    Http(String),
    /// The persisted state document exists but cannot be parsed.
    Json(String),
    /// Rendering an article's front matter failed.
    Yaml(String),
    /// Reading or writing a local file failed.
    Io(String),
    /// A required configuration value is absent.
    MissingConfig(String),
    /// A date bound was not given as YYYY-MM-DD.
    InvalidDate(String),
    /// The requested article no longer exists remotely.
    NotFound(String),
    /// The remote platform throttled us; retry no sooner than the given
    /// number of seconds.
    RateLimited(u64),
    /// The platform name is not recognised.
    UnsupportedPlatform(String),
}

/// The label of each error kind.
pub open spec fn kind_spec(e: &PullError) -> Seq<char> {
    match e {
        PullError::Api(_) => "API error"@,
        PullError::Http(_) => "HTTP request failed"@,
        PullError::Json(_) => "state parsing error"@,
        PullError::Yaml(_) => "YAML serialization error"@,
        PullError::Io(_) => "IO error"@,
        PullError::MissingConfig(_) => "missing configuration"@,
        PullError::InvalidDate(_) => "invalid date format"@,
        PullError::NotFound(_) => "article not found"@,
        PullError::RateLimited(_) => "rate limited"@,
        PullError::UnsupportedPlatform(_) => "unsupported platform"@,
    }
}

impl PullError {
    /// A short label naming the error kind, for user-facing reports.
    pub fn kind(&self) -> (r: &'static str)
        ensures
            r@ == kind_spec(self),
    {
        match self {
            PullError::Api(_) => "API error",
            PullError::Http(_) => "HTTP request failed",
            PullError::Json(_) => "state parsing error",
            PullError::Yaml(_) => "YAML serialization error",
            PullError::Io(_) => "IO error",
            PullError::MissingConfig(_) => "missing configuration",
            PullError::InvalidDate(_) => "invalid date format",
            PullError::NotFound(_) => "article not found",
            PullError::RateLimited(_) => "rate limited",
            PullError::UnsupportedPlatform(_) => "unsupported platform",
        }
    }
}

} // verus!
