//! Where the text to ingest comes from.
use vstd::prelude::*;

verus! {

/// Whether `reqwest::Url::parse` accepts `location` as an absolute URL.
pub uninterp spec fn parses_as_url(location: Seq<char>) -> bool;

/// Asks `reqwest::Url::parse` whether `location` is an absolute URL.
///
/// The parser reads nothing but its argument, so its verdict is a function
/// of the text; which texts it accepts is left to it.
#[verifier::external_body]
fn is_url(location: &str) -> (r: bool)
    ensures
        r == parses_as_url(location@),
{
    reqwest::Url::parse(location).is_ok()
}

/// The two kinds of source location.
#[derive(Debug, Clone, Copy, PartialEq, Eq, Structural)]
pub enum SourceKind {
    /// An absolute URL: the text is the body of the answer to a GET.
    Remote,
    /// Anything else: a path in the local file system.
    Local,
}

/// The kind of a location, given whether it is an absolute URL.
pub open spec fn kind_for(is_url: bool) -> SourceKind {
    if is_url {
        SourceKind::Remote
    } else {
        SourceKind::Local
    }
}

impl SourceKind {
    /// The kind of a location, given whether it is an absolute URL.
    pub fn from_url_check(is_url: bool) -> (r: SourceKind)
        ensures
            r == kind_for(is_url),
    {
        if is_url {
            SourceKind::Remote
        } else {
            SourceKind::Local
        }
    }
}

/// Decides how the text at `location` is to be read: over the network if
/// the location is an absolute URL, from the local file system otherwise.
pub fn source_kind(location: &str) -> (r: SourceKind)
    ensures
        r == kind_for(parses_as_url(location@)),
{
    SourceKind::from_url_check(is_url(location))
}

} // verus!
