//! Mirror a remote repository by crawling its web directory listings.
//!
//! The crate models the crawl itself: classifying the hyperlinks of a
//! listing page into file and subdirectory links, rebuilding fetchable
//! URLs, walking the directory tree to a bounded depth, downloading each
//! discovered file at most once, and mapping every remote file URL to a
//! distinct local path under the mirror root.

use vstd::prelude::*;

pub mod classify;
pub mod crawl;
pub mod github;
pub mod mirror;
pub mod project;
pub mod segments;
pub mod shorthand;

verus! {

/// A status code reported by the transport counts as success exactly when
/// it is the HTTP OK code.
pub open spec fn is_success_code(status: u32) -> bool {
    status == 200u32
}

/// Decide whether a transport status code is a success.
pub fn status_is_success(status: u32) -> (r: bool)
    ensures
        r == is_success_code(status),
{
    status == 200
}

} // verus!
