//! Mapping remote file URLs to local mirrored paths.
//!
//! A downloaded file lands under a fixed mirror root, at the path obtained
//! by stripping the site's raw-content root from its URL. The mapping is
//! deterministic and injective: two distinct file URLs never share a local
//! path, so one crawl never writes one file on top of another.

use vstd::prelude::*;
use vstd::string::*;
use crate::is_success_code;
use crate::segments::{is_prefix_of, join_path, join_slash, split_path, split_slash, str_eq};

verus! {

/// The raw-content root every file URL of a crawl begins with.
pub open spec fn raw_prefix() -> Seq<char> {
    "https://raw.githubusercontent.com"@ + "/"@
}

/// The local directory under which the remote layout is reproduced.
pub open spec fn mirror_root() -> Seq<char> {
    "__git__"@
}

/// The local path a remote file URL is mirrored to.
pub open spec fn local_path_of(url: Seq<char>) -> Seq<char> {
    mirror_root() + "/"@ + url.skip(raw_prefix().len() as int)
}

/// The directory part of a path: all its segments but the last.
pub open spec fn dir_part_of(path: Seq<char>) -> Seq<char> {
    if split_slash(path).len() == 0 {
        Seq::empty()
    } else {
        join_slash(split_slash(path).drop_last())
    }
}

/// The short name a file URL ends in: its last segment, preceded by the
/// segment before it when that one is not the branch name.
pub open spec fn tail_name_of(url: Seq<char>, branch: Seq<char>) -> Seq<char> {
    let segs = split_slash(url);
    if segs[segs.len() - 2] != branch {
        segs[segs.len() - 2] + "/"@ + segs[segs.len() - 1]
    } else {
        segs[segs.len() - 1]
    }
}

/// Law: the local-path mapping is injective. Distinct file URLs under the
/// raw-content root are mirrored to distinct local paths.
pub proof fn lemma_local_path_injective(u1: Seq<char>, u2: Seq<char>)
    requires
        is_prefix_of(raw_prefix(), u1),
        is_prefix_of(raw_prefix(), u2),
        u1 != u2,
    ensures
        local_path_of(u1) != local_path_of(u2),
{
    let p = raw_prefix().len() as int;
    let root = mirror_root() + "/"@;
    if local_path_of(u1) == local_path_of(u2) {
        let s1 = u1.skip(p);
        let s2 = u2.skip(p);
        assert((root + s1).len() == root.len() + s1.len());
        assert((root + s2).len() == root.len() + s2.len());
        assert(s1 =~= s2) by {
            assert forall|i: int| 0 <= i < s1.len() implies s1[i] == s2[i] by {
                assert((root + s1)[root.len() + i] == s1[i]);
                assert((root + s2)[root.len() + i] == s2[i]);
            }
        }
        assert(u1 =~= u2) by {
            assert forall|i: int| 0 <= i < u1.len() implies u1[i] == u2[i] by {
                if i < p {
                    assert(u1.subrange(0, p)[i] == u1[i]);
                    assert(u2.subrange(0, p)[i] == u2[i]);
                } else {
                    assert(s1[i - p] == u1[i]);
                    assert(s2[i - p] == u2[i]);
                }
            }
        }
        assert(false);
    }
}

/// Law: every rewritten file link begins with the raw-content root, so
/// the injective mapping applies to every URL a crawl downloads.
pub proof fn lemma_file_url_prefixed(link: Seq<char>)
    ensures
        is_prefix_of(raw_prefix(), crate::classify::file_url_of(link)),
{
    let url = crate::classify::file_url_of(link);
    let tail = join_slash(split_slash(link).remove(2));
    assert(url =~= raw_prefix() + tail);
    assert(url.subrange(0, raw_prefix().len() as int) =~= raw_prefix());
}

/// Law: every file URL a classified page contributes begins with the
/// raw-content root, so the injective mapping covers the whole crawl.
pub proof fn lemma_file_links_prefixed(raw: Seq<Seq<char>>, branch: Seq<char>)
    ensures
        forall|i: int| 0 <= i < crate::classify::file_links_of(raw, branch).len()
            ==> is_prefix_of(raw_prefix(), #[trigger] crate::classify::file_links_of(raw, branch)[i]),
    decreases raw.len(),
{
    if raw.len() > 0 {
        lemma_file_links_prefixed(raw.drop_last(), branch);
        lemma_file_url_prefixed(raw.last());
        let all = crate::classify::file_links_of(raw, branch);
        let rest = crate::classify::file_links_of(raw.drop_last(), branch);
        assert forall|i: int| 0 <= i < all.len() implies
            is_prefix_of(raw_prefix(), all[i]) by {
            if i < rest.len() {
                assert(all[i] == rest[i]);
            }
        }
    }
}

/// Compute the local mirrored path of a remote file URL.
pub fn resolve_local_path(url: &str) -> (r: String)
    requires
        is_prefix_of(raw_prefix(), url@),
    ensures
        r@ == local_path_of(url@),
{
    proof {
        reveal_strlit("https://raw.githubusercontent.com");
        reveal_strlit("/");
        assert(raw_prefix().len() == 34);
    }
    let n = url.unicode_len();
    let suffix = url.substring_char(34, n);
    proof {
        assert(suffix@ =~= url@.skip(raw_prefix().len() as int));
    }
    String::from_str("__git__").concat("/").concat(suffix)
}

/// Drop the last segment of a path, keeping the directory part.
pub fn split_dir_from_file(df: &str) -> (r: String)
    ensures
        r@ == dir_part_of(df@),
{
    let mut segs = split_path(df);
    if segs.len() > 0 {
        let ghost old_dv = segs.deep_view();
        segs.pop();
        proof {
            assert(segs.deep_view() =~= old_dv.drop_last());
        }
    }
    join_path(&segs)
}

/// The name a file URL ends in: its last segment, kept under the segment
/// before it unless that one is the branch name. This shortens a URL to
/// a display name and keeps at most two segments, so distinct URLs can
/// share it; mirrored paths come from [`resolve_local_path`], whose
/// mapping is injective.
pub fn split_file_from_url(url: &str, branch: &str) -> (r: String)
    requires
        split_slash(url@).len() >= 2,
    ensures
        r@ == tail_name_of(url@, branch@),
{
    let segs = split_path(url);
    let n = segs.len();
    if !str_eq(segs[n - 2].as_str(), branch) {
        segs[n - 2].clone().concat("/").concat(segs[n - 1].as_str())
    } else {
        segs[n - 1].clone()
    }
}

/// What remains on disk for one attempted file download.
#[derive(Clone, Copy, Debug, PartialEq, Eq, Structural)]
pub enum SaveOutcome {
    /// The transport reported success: the written file is kept.
    Kept,
    /// The transport reported failure: the partial file is removed.
    Removed,
}

/// Decide what becomes of the locally written file once the transport has
/// reported `status` for its download: a file fetched with a non-success
/// status never remains on disk.
pub fn save_outcome(status: u32) -> (r: SaveOutcome)
    ensures
        r is Kept <==> is_success_code(status),
        r is Removed <==> !is_success_code(status),
{
    if status == 200 {
        SaveOutcome::Kept
    } else {
        SaveOutcome::Removed
    }
}

} // verus!
