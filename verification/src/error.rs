//! The ways in which a resolution fails.

use url::ParseError;
use vstd::prelude::*;

verus! {

/// Why no override groups could be produced. Every failure ends the whole
/// resolution: there is no partial result.
#[derive(Clone, Copy, Debug, PartialEq, Eq)]
pub enum ResolveError {
    /// A remote-origin locator is no well-formed URL.
    LocatorParseError(ParseError),
    /// A name that was to be overridden is the name of no package of the
    /// source graph.
    SourceMemberNotFound,
    /// The graph names no root package, or names one that it does not hold.
    MissingRoot,
    /// A workspace member is the identity of no package of its graph.
    MemberNotFound,
}

} // verus!
