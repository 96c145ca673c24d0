//! What can end a run.

use vstd::prelude::*;

verus! {

/// The failures of a run. Each of them ends it: no page is retried and
/// nothing is salvaged.
#[derive(Debug, Clone, PartialEq, Eq)]
pub enum DumpError {
    /// The token that ends at byte `offset` holds text that is not well
    /// formed: an entity that is unknown, or one that is not closed.
    Parse { offset: u64 },
    /// At byte `offset` a page ends, or declares a redirect, without a title;
    /// or it declares a redirect without a target.
    MalformedPage { offset: u64 },
    /// The redirects from `title` do not end within the allowed number of
    /// hops.
    RedirectCycle { title: String },
    /// The input is not compressed in the way that the chosen mode asks for.
    UnsupportedCompression,
}

} // verus!
