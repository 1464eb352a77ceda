//! Classifying the links of one listing page.
//!
//! Each raw link of a page is either discarded (it leaves the site's path
//! space for this repository), recognised as a file link (its third path
//! segment is the file marker, followed by the branch), or recognised as a
//! subdirectory link (the subtree marker in the same position). A file
//! link is rewritten into an absolute raw-content URL; a subdirectory link
//! is rewritten into a path relative to the repository root.

use vstd::prelude::*;
use vstd::string::*;
use crate::segments::{
    is_prefix_of, join_path, join_slash, split_path, split_slash, starts_with_str, str_eq,
};

verus! {

/// A link that is already a fully qualified URL points outside the
/// repository's path space and is discarded.
pub open spec fn is_external_link(link: Seq<char>) -> bool {
    is_prefix_of("https://"@, link)
}

/// A file link: `/<account>/<repository>/blob/<branch>/<path...>`.
pub open spec fn is_file_link(link: Seq<char>, branch: Seq<char>) -> bool {
    &&& !is_external_link(link)
    &&& split_slash(link).len() >= 5
    &&& split_slash(link)[2] == "blob"@
    &&& split_slash(link)[3] == branch
}

/// A subdirectory link: `/<account>/<repository>/tree/<branch>/<path...>`.
pub open spec fn is_dir_link(link: Seq<char>, branch: Seq<char>) -> bool {
    &&& !is_external_link(link)
    &&& split_slash(link).len() >= 5
    &&& split_slash(link)[2] == "tree"@
    &&& split_slash(link)[3] == branch
}

/// The link carries the file marker as its third segment.
pub open spec fn blob_marked(link: Seq<char>) -> bool {
    split_slash(link).len() >= 3 && split_slash(link)[2] == "blob"@
}

/// The link's path with its file-marker segment removed.
pub open spec fn strip_blob_marker(link: Seq<char>) -> Seq<char> {
    "/"@ + join_slash(split_slash(link).remove(2))
}

/// The absolute raw-content URL a file link is rewritten into.
pub open spec fn file_url_of(link: Seq<char>) -> Seq<char> {
    "https://raw.githubusercontent.com"@ + strip_blob_marker(link)
}

/// The repository-root-relative path a subdirectory link is rewritten into.
pub open spec fn dir_path_of(link: Seq<char>) -> Seq<char> {
    join_slash(split_slash(link).skip(4))
}

/// The rewritten file links of a page, in page order.
pub open spec fn file_links_of(raw: Seq<Seq<char>>, branch: Seq<char>) -> Seq<Seq<char>>
    decreases raw.len(),
{
    if raw.len() == 0 {
        Seq::empty()
    } else {
        let rest = file_links_of(raw.drop_last(), branch);
        if is_file_link(raw.last(), branch) {
            rest.push(file_url_of(raw.last()))
        } else {
            rest
        }
    }
}

/// The rewritten subdirectory links of a page, in page order.
pub open spec fn dir_links_of(raw: Seq<Seq<char>>, branch: Seq<char>) -> Seq<Seq<char>>
    decreases raw.len(),
{
    if raw.len() == 0 {
        Seq::empty()
    } else {
        let rest = dir_links_of(raw.drop_last(), branch);
        if is_dir_link(raw.last(), branch) {
            rest.push(dir_path_of(raw.last()))
        } else {
            rest
        }
    }
}

/// Law: no link is both a file link and a subdirectory link, and a
/// discarded external link is neither; so classifying a page puts each of
/// its links in at most one of the two partitions.
pub proof fn lemma_classification_disjoint(link: Seq<char>, branch: Seq<char>)
    ensures
        !(is_file_link(link, branch) && is_dir_link(link, branch)),
        is_external_link(link) ==> !is_file_link(link, branch),
        is_external_link(link) ==> !is_dir_link(link, branch),
{
    if is_file_link(link, branch) && is_dir_link(link, branch) {
        reveal_strlit("blob");
        reveal_strlit("tree");
        assert("blob"@[0] == 'b');
        assert("tree"@[0] == 't');
        assert(false);
    }
}

/// Law: classification partitions a page's links; the two partitions
/// together never hold more entries than the page had links.
pub proof fn lemma_classification_partitions(raw: Seq<Seq<char>>, branch: Seq<char>)
    ensures
        file_links_of(raw, branch).len() + dir_links_of(raw, branch).len() <= raw.len(),
    decreases raw.len(),
{
    if raw.len() > 0 {
        lemma_classification_partitions(raw.drop_last(), branch);
        lemma_classification_disjoint(raw.last(), branch);
    }
}

/// The links of one listing page, split into rewritten file URLs and
/// repository-relative subdirectory paths.
pub struct ClassifiedLinks {
    pub file_urls: Vec<String>,
    pub dir_paths: Vec<String>,
}

/// Rewrite a file link by dropping its file-marker segment, keeping the
/// leading separator; a link without the marker is returned unchanged.
pub fn split_from_blob(url: &str) -> (r: String)
    ensures
        r@ == if blob_marked(url@) {
            strip_blob_marker(url@)
        } else {
            url@
        },
{
    let mut segs = split_path(url);
    if segs.len() >= 3 && str_eq(segs[2].as_str(), "blob") {
        let ghost old_dv = segs.deep_view();
        segs.remove(2);
        proof {
            assert(segs.deep_view() =~= old_dv.remove(2)) by {
                assert forall|j: int| 0 <= j < segs.deep_view().len() implies
                    segs.deep_view()[j] == old_dv.remove(2)[j] by {
                    assert(segs@[j]@ == segs.deep_view()[j]);
                }
            }
        }
        String::from_str("/").concat(join_path(&segs).as_str())
    } else {
        url.to_owned()
    }
}

/// Classify the raw links of one listing page against the configured
/// branch. The file partition holds absolute raw-content URLs; the
/// directory partition holds repository-relative paths; links matching
/// neither rule are ignored.
pub fn classify_links(links: &Vec<String>, branch: &str) -> (r: ClassifiedLinks)
    ensures
        r.file_urls.deep_view() == file_links_of(links.deep_view(), branch@),
        r.dir_paths.deep_view() == dir_links_of(links.deep_view(), branch@),
{
    let mut file_urls: Vec<String> = Vec::new();
    let mut dir_paths: Vec<String> = Vec::new();
    let mut i: usize = 0;
    proof {
        assert(links.deep_view().take(0) =~= Seq::<Seq<char>>::empty());
        assert(file_urls.deep_view() =~= Seq::<Seq<char>>::empty());
        assert(dir_paths.deep_view() =~= Seq::<Seq<char>>::empty());
    }
    while i < links.len()
        invariant
            i <= links.len(),
            file_urls.deep_view() == file_links_of(links.deep_view().take(i as int), branch@),
            dir_paths.deep_view() == dir_links_of(links.deep_view().take(i as int), branch@),
        decreases links.len() - i,
    {
        let ghost dv = links.deep_view();
        proof {
            assert(dv.take(i as int + 1).drop_last() =~= dv.take(i as int));
            assert(dv.take(i as int + 1).last() == dv[i as int]);
            lemma_classification_disjoint(dv[i as int], branch@);
        }
        let link = &links[i];
        if !starts_with_str(link.as_str(), "https://") {
            let segs = split_path(link.as_str());
            if segs.len() >= 5 {
                if str_eq(segs[2].as_str(), "blob") && str_eq(segs[3].as_str(), branch) {
                    let rewritten = split_from_blob(link.as_str());
                    let url = String::from_str("https://raw.githubusercontent.com")
                        .concat(rewritten.as_str());
                    let ghost old_files = file_urls.deep_view();
                    file_urls.push(url);
                    proof {
                        assert(file_urls.deep_view() =~= old_files.push(file_url_of(dv[i as int])));
                    }
                } else if str_eq(segs[2].as_str(), "tree") && str_eq(segs[3].as_str(), branch) {
                    let mut rel: Vec<String> = Vec::new();
                    let mut j: usize = 4;
                    proof {
                        assert(rel.deep_view() =~= segs.deep_view().subrange(4, 4));
                    }
                    while j < segs.len()
                        invariant
                            4 <= j <= segs.len(),
                            segs.deep_view() == split_slash(dv[i as int]),
                            rel.deep_view() == segs.deep_view().subrange(4, j as int),
                        decreases segs.len() - j,
                    {
                        let ghost old_rel = rel.deep_view();
                        rel.push(segs[j].clone());
                        proof {
                            assert(rel.deep_view() =~= old_rel.push(segs.deep_view()[j as int]));
                            assert(rel.deep_view() =~= segs.deep_view().subrange(4, j as int + 1));
                        }
                        j += 1;
                    }
                    proof {
                        assert(segs.deep_view().subrange(4, segs.deep_view().len() as int)
                            =~= split_slash(dv[i as int]).skip(4));
                    }
                    let path = join_path(&rel);
                    let ghost old_dirs = dir_paths.deep_view();
                    dir_paths.push(path);
                    proof {
                        assert(dir_paths.deep_view() =~= old_dirs.push(dir_path_of(dv[i as int])));
                    }
                }
            }
        }
        i += 1;
    }
    proof {
        assert(links.deep_view().take(links.len() as int) =~= links.deep_view());
    }
    ClassifiedLinks { file_urls, dir_paths }
}

} // verus!
