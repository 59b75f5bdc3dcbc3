//! Forem instance definitions for all known Forem communities.
//!
//! `ForemInstance` represents the known Forem-based communities, including
//! dev.to and the forem.com sub-communities, as well as custom self-hosted
//! instances.

use vstd::prelude::*;

use crate::error::PullError;
use crate::text::{ascii_lower_seq, is_ascii_seq, lower_of, lowercase, str_eq};

verus! {

/// Known Forem instances and communities.
#[derive(Debug, Clone)]
pub enum ForemInstance {
    /// dev.to - the original and largest Forem community
    DevTo,
    /// vibe.forem.com
    Vibe,
    /// open.forem.com
    Open,
    /// future.forem.com
    Future,
    /// gg.forem.com
    Gg,
    /// music.forem.com
    Music,
    /// popcorn.forem.com
    Popcorn,
    /// design.forem.com
    Design,
    /// zeroday.forem.com
    Zeroday,
    /// golf.forem.com
    Golf,
    /// crypto.forem.com
    Crypto,
    /// parenting.forem.com
    Parenting,
    /// core.forem.com
    Core,
    /// maker.forem.com
    Maker,
    /// hmpljs.forem.com
    Hmpljs,
    /// dumb.dev.to
    DumbDev,
    /// Custom Forem instance with a specified domain
    Custom { domain: String },
}

/// The mathematical model of a Forem instance: the custom domain is a plain
/// character sequence.
pub enum ForemView {
    DevTo,
    Vibe,
    Open,
    Future,
    Gg,
    Music,
    Popcorn,
    Design,
    Zeroday,
    Golf,
    Crypto,
    Parenting,
    Core,
    Maker,
    Hmpljs,
    DumbDev,
    Custom(Seq<char>),
}

impl View for ForemInstance {
    type V = ForemView;

    open spec fn view(&self) -> ForemView {
        match self {
            ForemInstance::DevTo => ForemView::DevTo,
            ForemInstance::Vibe => ForemView::Vibe,
            ForemInstance::Open => ForemView::Open,
            ForemInstance::Future => ForemView::Future,
            ForemInstance::Gg => ForemView::Gg,
            ForemInstance::Music => ForemView::Music,
            ForemInstance::Popcorn => ForemView::Popcorn,
            ForemInstance::Design => ForemView::Design,
            ForemInstance::Zeroday => ForemView::Zeroday,
            ForemInstance::Golf => ForemView::Golf,
            ForemInstance::Crypto => ForemView::Crypto,
            ForemInstance::Parenting => ForemView::Parenting,
            ForemInstance::Core => ForemView::Core,
            ForemInstance::Maker => ForemView::Maker,
            ForemInstance::Hmpljs => ForemView::Hmpljs,
            ForemInstance::DumbDev => ForemView::DumbDev,
            ForemInstance::Custom { domain } => ForemView::Custom(domain@),
        }
    }
}

/// The short identifier of an instance, used inside platform strings.
pub open spec fn forem_short(v: ForemView) -> Seq<char> {
    match v {
        ForemView::DevTo => "devto"@,
        ForemView::Vibe => "vibe"@,
        ForemView::Open => "open"@,
        ForemView::Future => "future"@,
        ForemView::Gg => "gg"@,
        ForemView::Music => "music"@,
        ForemView::Popcorn => "popcorn"@,
        ForemView::Design => "design"@,
        ForemView::Zeroday => "zeroday"@,
        ForemView::Golf => "golf"@,
        ForemView::Crypto => "crypto"@,
        ForemView::Parenting => "parenting"@,
        ForemView::Core => "core"@,
        ForemView::Maker => "maker"@,
        ForemView::Hmpljs => "hmpljs"@,
        ForemView::DumbDev => "dumbdev"@,
        ForemView::Custom(domain) => "custom:"@ + domain,
    }
}

/// The API base URL of an instance.
pub open spec fn forem_base_url(v: ForemView) -> Seq<char> {
    match v {
        ForemView::DevTo => "https://dev.to/api"@,
        ForemView::Vibe => "https://vibe.forem.com/api"@,
        ForemView::Open => "https://open.forem.com/api"@,
        ForemView::Future => "https://future.forem.com/api"@,
        ForemView::Gg => "https://gg.forem.com/api"@,
        ForemView::Music => "https://music.forem.com/api"@,
        ForemView::Popcorn => "https://popcorn.forem.com/api"@,
        ForemView::Design => "https://design.forem.com/api"@,
        ForemView::Zeroday => "https://zeroday.forem.com/api"@,
        ForemView::Golf => "https://golf.forem.com/api"@,
        ForemView::Crypto => "https://crypto.forem.com/api"@,
        ForemView::Parenting => "https://parenting.forem.com/api"@,
        ForemView::Core => "https://core.forem.com/api"@,
        ForemView::Maker => "https://maker.forem.com/api"@,
        ForemView::Hmpljs => "https://hmpljs.forem.com/api"@,
        ForemView::DumbDev => "https://dumb.dev.to/api"@,
        ForemView::Custom(domain) => "https://"@ + domain + "/api"@,
    }
}

/// The human-readable name of an instance.
pub open spec fn forem_display(v: ForemView) -> Seq<char> {
    match v {
        ForemView::DevTo => "Dev.to"@,
        ForemView::Vibe => "Vibe Forem"@,
        ForemView::Open => "Open Forem"@,
        ForemView::Future => "Future Forem"@,
        ForemView::Gg => "GG Forem"@,
        ForemView::Music => "Music Forem"@,
        ForemView::Popcorn => "Popcorn Forem"@,
        ForemView::Design => "Design Forem"@,
        ForemView::Zeroday => "Zeroday Forem"@,
        ForemView::Golf => "Golf Forem"@,
        ForemView::Crypto => "Crypto Forem"@,
        ForemView::Parenting => "Parenting Forem"@,
        ForemView::Core => "Core Forem"@,
        ForemView::Maker => "Maker Forem"@,
        ForemView::Hmpljs => "HMPL.js Forem"@,
        ForemView::DumbDev => "Dumb Dev"@,
        ForemView::Custom(domain) => "Forem ("@ + domain + ")"@,
    }
}

/// How an already-lowercased instance name is read.  A `custom:` prefix
/// introduces a custom domain, which must be non-empty; otherwise the name
/// must be one of the known aliases.
pub open spec fn parse_forem_view(s: Seq<char>) -> Option<ForemView> {
    if s.len() >= 7 && s.subrange(0, 7) == "custom:"@ {
        if s.len() > 7 {
            Some(ForemView::Custom(s.skip(7)))
        } else {
            None
        }
    } else if s == "devto"@ || s == "dev.to"@ || s == "dev"@ {
        Some(ForemView::DevTo)
    } else if s == "vibe"@ || s == "vibe.forem"@ || s == "vibe.forem.com"@ || s == "vibeforem"@ {
        Some(ForemView::Vibe)
    } else if s == "open"@ || s == "open.forem"@ || s == "open.forem.com"@ {
        Some(ForemView::Open)
    } else if s == "future"@ || s == "future.forem"@ || s == "future.forem.com"@ {
        Some(ForemView::Future)
    } else if s == "gg"@ || s == "gg.forem"@ || s == "gg.forem.com"@ {
        Some(ForemView::Gg)
    } else if s == "music"@ || s == "music.forem"@ || s == "music.forem.com"@ {
        Some(ForemView::Music)
    } else if s == "popcorn"@ || s == "popcorn.forem"@ || s == "popcorn.forem.com"@ {
        Some(ForemView::Popcorn)
    } else if s == "design"@ || s == "design.forem"@ || s == "design.forem.com"@ {
        Some(ForemView::Design)
    } else if s == "zeroday"@ || s == "zeroday.forem"@ || s == "zeroday.forem.com"@ {
        Some(ForemView::Zeroday)
    } else if s == "golf"@ || s == "golf.forem"@ || s == "golf.forem.com"@ {
        Some(ForemView::Golf)
    } else if s == "crypto"@ || s == "crypto.forem"@ || s == "crypto.forem.com"@ {
        Some(ForemView::Crypto)
    } else if s == "parenting"@ || s == "parenting.forem"@ || s == "parenting.forem.com"@ {
        Some(ForemView::Parenting)
    } else if s == "core"@ || s == "core.forem"@ || s == "core.forem.com"@ {
        Some(ForemView::Core)
    } else if s == "maker"@ || s == "maker.forem"@ || s == "maker.forem.com"@ {
        Some(ForemView::Maker)
    } else if s == "hmpljs"@ || s == "hmpljs.forem"@ || s == "hmpljs.forem.com"@ {
        Some(ForemView::Hmpljs)
    } else if s == "dumbdev"@ || s == "dumb.dev"@ || s == "dumb.dev.to"@ {
        Some(ForemView::DumbDev)
    } else {
        None
    }
}

impl ForemInstance {
    /// Returns the API base URL for this Forem instance.
    pub fn base_url(&self) -> (r: String)
        ensures
            r@ == forem_base_url(self@),
    {
        match self {
            ForemInstance::DevTo => String::from_str("https://dev.to/api"),
            ForemInstance::Vibe => String::from_str("https://vibe.forem.com/api"),
            ForemInstance::Open => String::from_str("https://open.forem.com/api"),
            ForemInstance::Future => String::from_str("https://future.forem.com/api"),
            ForemInstance::Gg => String::from_str("https://gg.forem.com/api"),
            ForemInstance::Music => String::from_str("https://music.forem.com/api"),
            ForemInstance::Popcorn => String::from_str("https://popcorn.forem.com/api"),
            ForemInstance::Design => String::from_str("https://design.forem.com/api"),
            ForemInstance::Zeroday => String::from_str("https://zeroday.forem.com/api"),
            ForemInstance::Golf => String::from_str("https://golf.forem.com/api"),
            ForemInstance::Crypto => String::from_str("https://crypto.forem.com/api"),
            ForemInstance::Parenting => String::from_str("https://parenting.forem.com/api"),
            ForemInstance::Core => String::from_str("https://core.forem.com/api"),
            ForemInstance::Maker => String::from_str("https://maker.forem.com/api"),
            ForemInstance::Hmpljs => String::from_str("https://hmpljs.forem.com/api"),
            ForemInstance::DumbDev => String::from_str("https://dumb.dev.to/api"),
            ForemInstance::Custom { domain } => String::from_str("https://").concat(
                domain.as_str(),
            ).concat("/api"),
        }
    }

    /// Returns the display name for this Forem instance.
    pub fn display_name(&self) -> (r: String)
        ensures
            r@ == forem_display(self@),
    {
        match self {
            ForemInstance::DevTo => String::from_str("Dev.to"),
            ForemInstance::Vibe => String::from_str("Vibe Forem"),
            ForemInstance::Open => String::from_str("Open Forem"),
            ForemInstance::Future => String::from_str("Future Forem"),
            ForemInstance::Gg => String::from_str("GG Forem"),
            ForemInstance::Music => String::from_str("Music Forem"),
            ForemInstance::Popcorn => String::from_str("Popcorn Forem"),
            ForemInstance::Design => String::from_str("Design Forem"),
            ForemInstance::Zeroday => String::from_str("Zeroday Forem"),
            ForemInstance::Golf => String::from_str("Golf Forem"),
            ForemInstance::Crypto => String::from_str("Crypto Forem"),
            ForemInstance::Parenting => String::from_str("Parenting Forem"),
            ForemInstance::Core => String::from_str("Core Forem"),
            ForemInstance::Maker => String::from_str("Maker Forem"),
            ForemInstance::Hmpljs => String::from_str("HMPL.js Forem"),
            ForemInstance::DumbDev => String::from_str("Dumb Dev"),
            ForemInstance::Custom { domain } => String::from_str("Forem (").concat(
                domain.as_str(),
            ).concat(")"),
        }
    }

    /// Returns the short identifier for this instance (used in platform
    /// strings).
    pub fn as_str(&self) -> (r: String)
        ensures
            r@ == forem_short(self@),
    {
        match self {
            ForemInstance::DevTo => String::from_str("devto"),
            ForemInstance::Vibe => String::from_str("vibe"),
            ForemInstance::Open => String::from_str("open"),
            ForemInstance::Future => String::from_str("future"),
            ForemInstance::Gg => String::from_str("gg"),
            ForemInstance::Music => String::from_str("music"),
            ForemInstance::Popcorn => String::from_str("popcorn"),
            ForemInstance::Design => String::from_str("design"),
            ForemInstance::Zeroday => String::from_str("zeroday"),
            ForemInstance::Golf => String::from_str("golf"),
            ForemInstance::Crypto => String::from_str("crypto"),
            ForemInstance::Parenting => String::from_str("parenting"),
            ForemInstance::Core => String::from_str("core"),
            ForemInstance::Maker => String::from_str("maker"),
            ForemInstance::Hmpljs => String::from_str("hmpljs"),
            ForemInstance::DumbDev => String::from_str("dumbdev"),
            ForemInstance::Custom { domain } => String::from_str("custom:").concat(
                domain.as_str(),
            ),
        }
    }

    /// Parses an instance name after lowercasing it.  On ASCII input the
    /// lowercase conversion is the plain ASCII case mapping, which pins the
    /// result as a full function of the input and makes the parse
    /// case-insensitive there.
    pub fn parse(s: &str) -> (r: Result<ForemInstance, PullError>)
        ensures
            match r {
                Ok(i) => parse_forem_view(lower_of(s@)) == Some(i@),
                Err(e) => parse_forem_view(lower_of(s@)) is None && e matches
                    PullError::UnsupportedPlatform(_),
            },
            is_ascii_seq(s@) ==> lower_of(s@) == ascii_lower_seq(s@),
    {
        let lower = lowercase(s);
        ForemInstance::parse_lowered(lower.as_str())
    }

    /// Parses an already-lowercased instance name, exactly as
    /// `parse_forem_view` reads it.
    pub fn parse_lowered(s: &str) -> (r: Result<ForemInstance, PullError>)
        ensures
            match r {
                Ok(i) => parse_forem_view(s@) == Some(i@),
                Err(e) => parse_forem_view(s@) is None && e matches
                    PullError::UnsupportedPlatform(_),
            },
    {
        let n = s.unicode_len();
        if n >= 7 && str_eq(s.substring_char(0, 7), "custom:") {
            if n > 7 {
                let domain = s.substring_char(7, n).to_owned();
                proof {
                    assert(s@.subrange(7, n as int) =~= s@.skip(7));
                }
                return Ok(ForemInstance::Custom { domain });
            }
            return Err(
                PullError::UnsupportedPlatform(
                    String::from_str("Custom Forem instance requires a domain"),
                ),
            );
        }
        if str_eq(s, "devto") || str_eq(s, "dev.to") || str_eq(s, "dev") {
            Ok(ForemInstance::DevTo)
        } else if str_eq(s, "vibe") || str_eq(s, "vibe.forem") || str_eq(s, "vibe.forem.com")
            || str_eq(s, "vibeforem") {
            Ok(ForemInstance::Vibe)
        } else if str_eq(s, "open") || str_eq(s, "open.forem") || str_eq(s, "open.forem.com") {
            Ok(ForemInstance::Open)
        } else if str_eq(s, "future") || str_eq(s, "future.forem") || str_eq(
            s,
            "future.forem.com",
        ) {
            Ok(ForemInstance::Future)
        } else if str_eq(s, "gg") || str_eq(s, "gg.forem") || str_eq(s, "gg.forem.com") {
            Ok(ForemInstance::Gg)
        } else if str_eq(s, "music") || str_eq(s, "music.forem") || str_eq(s, "music.forem.com") {
            Ok(ForemInstance::Music)
        } else if str_eq(s, "popcorn") || str_eq(s, "popcorn.forem") || str_eq(
            s,
            "popcorn.forem.com",
        ) {
            Ok(ForemInstance::Popcorn)
        } else if str_eq(s, "design") || str_eq(s, "design.forem") || str_eq(
            s,
            "design.forem.com",
        ) {
            Ok(ForemInstance::Design)
        } else if str_eq(s, "zeroday") || str_eq(s, "zeroday.forem") || str_eq(
            s,
            "zeroday.forem.com",
        ) {
            Ok(ForemInstance::Zeroday)
        } else if str_eq(s, "golf") || str_eq(s, "golf.forem") || str_eq(s, "golf.forem.com") {
            Ok(ForemInstance::Golf)
        } else if str_eq(s, "crypto") || str_eq(s, "crypto.forem") || str_eq(
            s,
            "crypto.forem.com",
        ) {
            Ok(ForemInstance::Crypto)
        } else if str_eq(s, "parenting") || str_eq(s, "parenting.forem") || str_eq(
            s,
            "parenting.forem.com",
        ) {
            Ok(ForemInstance::Parenting)
        } else if str_eq(s, "core") || str_eq(s, "core.forem") || str_eq(s, "core.forem.com") {
            Ok(ForemInstance::Core)
        } else if str_eq(s, "maker") || str_eq(s, "maker.forem") || str_eq(s, "maker.forem.com") {
            Ok(ForemInstance::Maker)
        } else if str_eq(s, "hmpljs") || str_eq(s, "hmpljs.forem") || str_eq(
            s,
            "hmpljs.forem.com",
        ) {
            Ok(ForemInstance::Hmpljs)
        } else if str_eq(s, "dumbdev") || str_eq(s, "dumb.dev") || str_eq(s, "dumb.dev.to") {
            Ok(ForemInstance::DumbDev)
        } else {
            Err(
                PullError::UnsupportedPlatform(
                    String::from_str("Unknown Forem instance: ").concat(s),
                ),
            )
        }
    }
}

impl core::str::FromStr for ForemInstance {
    type Err = PullError;

    fn from_str(s: &str) -> Result<ForemInstance, PullError> {
        ForemInstance::parse(s)
    }
}

impl PartialEq for ForemInstance {
    fn eq(&self, other: &Self) -> (r: bool) {
        match (self, other) {
            (ForemInstance::DevTo, ForemInstance::DevTo) => true,
            (ForemInstance::Vibe, ForemInstance::Vibe) => true,
            (ForemInstance::Open, ForemInstance::Open) => true,
            (ForemInstance::Future, ForemInstance::Future) => true,
            (ForemInstance::Gg, ForemInstance::Gg) => true,
            (ForemInstance::Music, ForemInstance::Music) => true,
            (ForemInstance::Popcorn, ForemInstance::Popcorn) => true,
            (ForemInstance::Design, ForemInstance::Design) => true,
            (ForemInstance::Zeroday, ForemInstance::Zeroday) => true,
            (ForemInstance::Golf, ForemInstance::Golf) => true,
            (ForemInstance::Crypto, ForemInstance::Crypto) => true,
            (ForemInstance::Parenting, ForemInstance::Parenting) => true,
            (ForemInstance::Core, ForemInstance::Core) => true,
            (ForemInstance::Maker, ForemInstance::Maker) => true,
            (ForemInstance::Hmpljs, ForemInstance::Hmpljs) => true,
            (ForemInstance::DumbDev, ForemInstance::DumbDev) => true,
            (
                ForemInstance::Custom { domain },
                ForemInstance::Custom { domain: other_domain },
            ) => str_eq(domain.as_str(), other_domain.as_str()),
            _ => false,
        }
    }
}

impl Eq for ForemInstance {

}

impl vstd::std_specs::cmp::PartialEqSpecImpl for ForemInstance {
    open spec fn obeys_eq_spec() -> bool {
        true
    }

    open spec fn eq_spec(&self, other: &Self) -> bool {
        self@ == other@
    }
}

} // verus!
