//! The platform a pulled article comes from.  Today every supported
//! platform is a Forem instance; the enum keeps room for others.

use vstd::prelude::*;

use crate::error::PullError;
use crate::forem::{forem_short, parse_forem_view, ForemInstance, ForemView};
use crate::text::{ascii_lower_seq, is_ascii_seq, lower_of, lowercase, str_eq};

verus! {

/// A supported content platform.
#[derive(Debug, Clone)]
pub enum Platform {
    /// Forem-based platforms (dev.to, vibe.forem.com, etc.)
    Forem(ForemInstance),
}

/// The mathematical model of a platform.
pub enum PlatformView {
    Forem(ForemView),
}

impl View for Platform {
    type V = PlatformView;

    open spec fn view(&self) -> PlatformView {
        match self {
            Platform::Forem(instance) => PlatformView::Forem(instance@),
        }
    }
}

/// The string form of a platform.  For backward compatibility dev.to is
/// plain `devto`; every other Forem instance carries a `forem:` prefix.
pub open spec fn platform_str(v: PlatformView) -> Seq<char> {
    match v {
        PlatformView::Forem(f) => if f == ForemView::DevTo {
            "devto"@
        } else {
            "forem:"@ + forem_short(f)
        },
    }
}

/// How an already-lowercased platform name is read: the dev.to and vibe
/// aliases first, then an explicit `forem:` prefix, then a bare Forem
/// instance name.
pub open spec fn parse_platform_view(s: Seq<char>) -> Option<PlatformView> {
    if s == "devto"@ || s == "dev.to"@ || s == "dev"@ {
        Some(PlatformView::Forem(ForemView::DevTo))
    } else if s == "vibeforem"@ || s == "vibe.forem"@ || s == "vibe"@ {
        Some(PlatformView::Forem(ForemView::Vibe))
    } else if s.len() >= 6 && s.subrange(0, 6) == "forem:"@ {
        match parse_forem_view(s.skip(6)) {
            Some(f) => Some(PlatformView::Forem(f)),
            None => None,
        }
    } else {
        match parse_forem_view(s) {
            Some(f) => Some(PlatformView::Forem(f)),
            None => None,
        }
    }
}

impl Platform {
    /// Returns the ForemInstance for this platform.
    pub fn as_forem(&self) -> (r: &ForemInstance)
        ensures
            self@ == PlatformView::Forem(r@),
    {
        match self {
            Platform::Forem(instance) => instance,
        }
    }

    /// The string form of this platform.
    pub fn as_str(&self) -> (r: String)
        ensures
            r@ == platform_str(self@),
    {
        match self {
            Platform::Forem(instance) => {
                if instance.eq(&ForemInstance::DevTo) {
                    String::from_str("devto")
                } else {
                    String::from_str("forem:").concat(instance.as_str().as_str())
                }
            },
        }
    }

    /// Parses a platform name after lowercasing it.  On ASCII input the
    /// lowercase conversion is the plain ASCII case mapping, which pins the
    /// result as a full function of the input and makes the parse
    /// case-insensitive there.
    pub fn parse(s: &str) -> (r: Result<Platform, PullError>)
        ensures
            match r {
                Ok(p) => parse_platform_view(lower_of(s@)) == Some(p@),
                Err(e) => parse_platform_view(lower_of(s@)) is None && (e matches
                    PullError::UnsupportedPlatform(_)),
            },
            is_ascii_seq(s@) ==> lower_of(s@) == ascii_lower_seq(s@),
    {
        let lower = lowercase(s);
        Platform::parse_lowered(lower.as_str())
    }

    /// Parses an already-lowercased platform name, exactly as
    /// `parse_platform_view` reads it.
    pub fn parse_lowered(s: &str) -> (r: Result<Platform, PullError>)
        ensures
            match r {
                Ok(p) => parse_platform_view(s@) == Some(p@),
                Err(e) => parse_platform_view(s@) is None && (e matches
                    PullError::UnsupportedPlatform(_)),
            },
    {
        if str_eq(s, "devto") || str_eq(s, "dev.to") || str_eq(s, "dev") {
            return Ok(Platform::Forem(ForemInstance::DevTo));
        }
        if str_eq(s, "vibeforem") || str_eq(s, "vibe.forem") || str_eq(s, "vibe") {
            return Ok(Platform::Forem(ForemInstance::Vibe));
        }
        let n = s.unicode_len();
        if n >= 6 && str_eq(s.substring_char(0, 6), "forem:") {
            let rest = s.substring_char(6, n);
            proof {
                assert(rest@ =~= s@.skip(6));
            }
            match ForemInstance::parse_lowered(rest) {
                Ok(instance) => Ok(Platform::Forem(instance)),
                Err(e) => Err(e),
            }
        } else {
            match ForemInstance::parse_lowered(s) {
                Ok(instance) => Ok(Platform::Forem(instance)),
                Err(e) => Err(e),
            }
        }
    }
}

impl core::str::FromStr for Platform {
    type Err = PullError;

    fn from_str(s: &str) -> Result<Platform, PullError> {
        Platform::parse(s)
    }
}

impl PartialEq for Platform {
    fn eq(&self, other: &Self) -> (r: bool) {
        match (self, other) {
            (Platform::Forem(a), Platform::Forem(b)) => a.eq(b),
        }
    }
}

impl Eq for Platform {

}

impl vstd::std_specs::cmp::PartialEqSpecImpl for Platform {
    open spec fn obeys_eq_spec() -> bool {
        true
    }

    open spec fn eq_spec(&self, other: &Self) -> bool {
        self@ == other@
    }
}

} // verus!
