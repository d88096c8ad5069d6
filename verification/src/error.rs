//! The error taxonomy of the comment pipeline.
//!
//! Every failure is non-fatal: the caller surfaces it once as a transient
//! user message and carries on, with an empty comment set for ingestion
//! failures and the prior state for runtime command errors.

use vstd::prelude::*;

verus! {

/// One failure of matching, fetching, configuration or command handling.
#[derive(Clone, Copy, Debug, PartialEq, Eq, Structural)]
pub enum DanmakuError {
    /// The fingerprint backend reported no matching episode.
    NoMatch,
    /// The fingerprint backend reported more than one candidate episode.
    AmbiguousMatch,
    /// The requested episode number has no entry in the resolved series.
    EpisodeOutOfRange,
    /// A movie row carried none of the known provider links.
    NoLinksAvailable,
    /// A show row carried no provider with a known episode total.
    VipSiteNotFound,
    /// Transport failure while talking to a remote endpoint.
    NetworkError,
    /// A remote response did not have the expected shape.
    ResponseParseError,
    /// A filter-rule file could not be decoded.
    ConfigParseError,
    /// A malformed or missing command argument.
    ArgumentError,
}

impl DanmakuError {
    /// A short, user-facing description of the failure.
    pub fn message(&self) -> (r: &'static str)
        ensures
            r@ == self.spec_message(),
    {
        match self {
            DanmakuError::NoMatch => "no match found",
            DanmakuError::AmbiguousMatch => "more than one match found",
            DanmakuError::EpisodeOutOfRange => "episode number out of range",
            DanmakuError::NoLinksAvailable => "no links available",
            DanmakuError::VipSiteNotFound => "cannot find the vipsite",
            DanmakuError::NetworkError => "network error",
            DanmakuError::ResponseParseError => "cannot parse the response",
            DanmakuError::ConfigParseError => "cannot parse the filter rules",
            DanmakuError::ArgumentError => "invalid argument",
        }
    }

    /// What `message` returns, variant by variant.
    pub open spec fn spec_message(self) -> Seq<char> {
        match self {
            DanmakuError::NoMatch => "no match found"@,
            DanmakuError::AmbiguousMatch => "more than one match found"@,
            DanmakuError::EpisodeOutOfRange => "episode number out of range"@,
            DanmakuError::NoLinksAvailable => "no links available"@,
            DanmakuError::VipSiteNotFound => "cannot find the vipsite"@,
            DanmakuError::NetworkError => "network error"@,
            DanmakuError::ResponseParseError => "cannot parse the response"@,
            DanmakuError::ConfigParseError => "cannot parse the filter rules"@,
            DanmakuError::ArgumentError => "invalid argument"@,
        }
    }
}

} // verus!
