//! The tree walker: a state machine over one crawl run.
//!
//! The crawler keeps a queue of subdirectories still to be listed, the set
//! of directory paths already dispatched, a queue of file URLs still to be
//! downloaded, and the trace of file URLs already handed to the transport.
//! [`Crawler::next_action`] yields the next transport request; the driver
//! performs it and reports the outcome back through [`Crawler::on_listing`],
//! [`Crawler::on_listing_failed`] and [`Crawler::on_file_result`]. A failed
//! listing ends that branch of the tree and nothing else; a file URL is
//! requested at most once per run; a subdirectory deeper than the depth
//! bound is never listed.

use vstd::prelude::*;
use vstd::string::*;
use crate::classify::{classify_links, dir_links_of, file_links_of};
use crate::github::GitHub;
use crate::mirror::{
    dir_part_of, lemma_file_links_prefixed, local_path_of, raw_prefix, resolve_local_path,
    split_dir_from_file,
};
use crate::project::Project;
use crate::segments::{contains_str, is_prefix_of, str_eq};

verus! {

/// No element of `s` occurs twice.
pub open spec fn distinct_seq<T>(s: Seq<T>) -> bool {
    forall|i: int, j: int| 0 <= i < j < s.len() ==> s[i] != s[j]
}

/// A subdirectory waiting to be listed: its repository-relative path and
/// its depth below the root listing.
pub struct DirEntry {
    pub path: String,
    pub depth: usize,
}

/// Ghost image of a [`DirEntry`].
pub struct DirEntryView {
    pub path: Seq<char>,
    pub depth: nat,
}

impl View for DirEntry {
    type V = DirEntryView;

    open spec fn view(&self) -> DirEntryView {
        DirEntryView { path: self.path@, depth: self.depth as nat }
    }
}

impl DeepView for DirEntry {
    type V = DirEntryView;

    open spec fn deep_view(&self) -> DirEntryView {
        self@
    }
}

/// Some queued entry carries the path `p`.
pub open spec fn dirs_contain(pending: Seq<DirEntryView>, p: Seq<char>) -> bool {
    exists|i: int| 0 <= i < pending.len() && pending[i].path == p
}

/// The file queue after offering the candidates of one page, in order:
/// a candidate already queued or already requested is dropped, every
/// other candidate is appended once.
pub open spec fn queue_new_files(
    pending: Seq<Seq<char>>,
    requested: Seq<Seq<char>>,
    cands: Seq<Seq<char>>,
) -> Seq<Seq<char>>
    decreases cands.len(),
{
    if cands.len() == 0 {
        pending
    } else {
        let c = cands[0];
        let next = if pending.contains(c) || requested.contains(c) {
            pending
        } else {
            pending.push(c)
        };
        queue_new_files(next, requested, cands.drop_first())
    }
}

/// The directory queue after offering the subdirectories of one page at
/// depth `depth`: a path already queued or already visited is dropped,
/// every other path is appended once.
pub open spec fn queue_new_dirs(
    pending: Seq<DirEntryView>,
    visited: Seq<Seq<char>>,
    cands: Seq<Seq<char>>,
    depth: nat,
) -> Seq<DirEntryView>
    decreases cands.len(),
{
    if cands.len() == 0 {
        pending
    } else {
        let c = cands[0];
        let next = if visited.contains(c) || dirs_contain(pending, c) {
            pending
        } else {
            pending.push(DirEntryView { path: c, depth })
        };
        queue_new_dirs(next, visited, cands.drop_first(), depth)
    }
}

/// The listing URL of the directory at repository-relative path `path`:
/// the repository's root listing for the empty path, and the branch's
/// subtree listing otherwise.
pub open spec fn listing_url_spec(
    account: Seq<char>,
    repo: Seq<char>,
    branch: Seq<char>,
    path: Seq<char>,
) -> Seq<char> {
    if path.len() == 0 {
        "https://github.com"@ + "/"@ + account + "/"@ + repo
    } else {
        "https://github.com"@ + "/"@ + account + "/"@ + repo + "/tree/"@ + branch + "/"@ + path
    }
}

/// Ghost image of a [`Crawler`].
pub struct CrawlerView {
    pub account: Seq<char>,
    pub repo: Seq<char>,
    pub branch: Seq<char>,
    pub max_depth: nat,
    pub pending_dirs: Seq<DirEntryView>,
    pub visited: Seq<Seq<char>>,
    pub pending_files: Seq<Seq<char>>,
    pub requested: Seq<Seq<char>>,
    pub downloaded: Seq<Seq<char>>,
}

/// The file-side invariant: the request trace never repeats a URL, and
/// queued file URLs are fresh, distinct and under the raw-content root.
pub open spec fn files_inv(v: CrawlerView) -> bool {
    &&& distinct_seq(v.requested)
    &&& distinct_seq(v.pending_files)
    &&& forall|i: int|
        0 <= i < v.pending_files.len() ==> !v.requested.contains(#[trigger] v.pending_files[i])
    &&& forall|i: int|
        0 <= i < v.pending_files.len() ==> is_prefix_of(
            raw_prefix(),
            #[trigger] v.pending_files[i],
        )
}

/// The directory-side invariant: queued directories are distinct,
/// unvisited and within the depth bound.
pub open spec fn dirs_inv(v: CrawlerView) -> bool {
    &&& forall|i: int, j: int|
        0 <= i < j < v.pending_dirs.len() ==> v.pending_dirs[i].path != v.pending_dirs[j].path
    &&& forall|i: int|
        0 <= i < v.pending_dirs.len() ==> !v.visited.contains(#[trigger] v.pending_dirs[i].path)
    &&& forall|i: int|
        0 <= i < v.pending_dirs.len() ==> (#[trigger] v.pending_dirs[i].depth) <= v.max_depth
}

/// The download-record invariant: the set of successfully downloaded
/// files holds each URL at most once, and only URLs this run has
/// requested.
pub open spec fn downloads_inv(v: CrawlerView) -> bool {
    &&& distinct_seq(v.downloaded)
    &&& forall|i: int|
        0 <= i < v.downloaded.len() ==> v.requested.contains(#[trigger] v.downloaded[i])
}

/// The crawl's invariant.
pub open spec fn crawl_inv(v: CrawlerView) -> bool {
    files_inv(v) && dirs_inv(v) && downloads_inv(v)
}

proof fn lemma_files_inv_transfer(v1: CrawlerView, v2: CrawlerView)
    requires
        files_inv(v1),
        v2.pending_files == v1.pending_files,
        v2.requested == v1.requested,
    ensures
        files_inv(v2),
{
    assert forall|i: int, j: int| 0 <= i < j < v2.requested.len() implies v2.requested[i]
        != v2.requested[j] by {
        assert(v2.requested[i] == v1.requested[i]);
        assert(v2.requested[j] == v1.requested[j]);
    }
    assert forall|i: int, j: int| 0 <= i < j < v2.pending_files.len() implies v2.pending_files[i]
        != v2.pending_files[j] by {
        assert(v2.pending_files[i] == v1.pending_files[i]);
        assert(v2.pending_files[j] == v1.pending_files[j]);
    }
    assert forall|i: int| 0 <= i < v2.pending_files.len() implies !v2.requested.contains(
        #[trigger] v2.pending_files[i],
    ) by {
        assert(v2.pending_files[i] == v1.pending_files[i]);
    }
    assert forall|i: int| 0 <= i < v2.pending_files.len() implies is_prefix_of(
        raw_prefix(),
        #[trigger] v2.pending_files[i],
    ) by {
        assert(v2.pending_files[i] == v1.pending_files[i]);
    }
}

proof fn lemma_downloads_inv_transfer(v1: CrawlerView, v2: CrawlerView)
    requires
        downloads_inv(v1),
        v2.downloaded == v1.downloaded,
        v2.requested == v1.requested,
    ensures
        downloads_inv(v2),
{
    assert forall|i: int, j: int| 0 <= i < j < v2.downloaded.len() implies v2.downloaded[i]
        != v2.downloaded[j] by {
        assert(v2.downloaded[i] == v1.downloaded[i]);
        assert(v2.downloaded[j] == v1.downloaded[j]);
    }
    assert forall|i: int| 0 <= i < v2.downloaded.len() implies v2.requested.contains(
        #[trigger] v2.downloaded[i],
    ) by {
        assert(v2.downloaded[i] == v1.downloaded[i]);
    }
}

proof fn lemma_downloads_inv_requested_push(v1: CrawlerView, v2: CrawlerView, u: Seq<char>)
    requires
        downloads_inv(v1),
        v2.downloaded == v1.downloaded,
        v2.requested == v1.requested.push(u),
    ensures
        downloads_inv(v2),
{
    assert forall|i: int, j: int| 0 <= i < j < v2.downloaded.len() implies v2.downloaded[i]
        != v2.downloaded[j] by {
        assert(v2.downloaded[i] == v1.downloaded[i]);
        assert(v2.downloaded[j] == v1.downloaded[j]);
    }
    assert forall|i: int| 0 <= i < v2.downloaded.len() implies v2.requested.contains(
        #[trigger] v2.downloaded[i],
    ) by {
        assert(v2.downloaded[i] == v1.downloaded[i]);
        lemma_push_contains(v1.requested, u, v1.downloaded[i]);
    }
}

proof fn lemma_dirs_inv_transfer(v1: CrawlerView, v2: CrawlerView)
    requires
        dirs_inv(v1),
        v2.pending_dirs == v1.pending_dirs,
        v2.visited == v1.visited,
        v2.max_depth == v1.max_depth,
    ensures
        dirs_inv(v2),
{
    assert forall|i: int, j: int| 0 <= i < j < v2.pending_dirs.len() implies v2.pending_dirs[i].path
        != v2.pending_dirs[j].path by {
        assert(v2.pending_dirs[i] == v1.pending_dirs[i]);
        assert(v2.pending_dirs[j] == v1.pending_dirs[j]);
    }
    assert forall|i: int| 0 <= i < v2.pending_dirs.len() implies !v2.visited.contains(
        #[trigger] v2.pending_dirs[i].path,
    ) by {
        assert(v2.pending_dirs[i] == v1.pending_dirs[i]);
    }
    assert forall|i: int| 0 <= i < v2.pending_dirs.len() implies (
    #[trigger] v2.pending_dirs[i].depth) <= v2.max_depth by {
        assert(v2.pending_dirs[i] == v1.pending_dirs[i]);
    }
}

/// Law: in every well-formed crawl state, the trace of file URLs handed
/// to the transport has no repetition — each file is requested at most
/// once per run.
pub proof fn lemma_at_most_once_requested(v: CrawlerView)
    requires
        crawl_inv(v),
    ensures
        forall|i: int, j: int| 0 <= i < j < v.requested.len() ==> v.requested[i] != v.requested[j],
{
}

/// Law: in every well-formed crawl state, every queued directory lies
/// within the depth bound, so a directory nested deeper is never listed.
pub proof fn lemma_depth_bounded(v: CrawlerView)
    requires
        crawl_inv(v),
    ensures
        forall|i: int|
            0 <= i < v.pending_dirs.len() ==> (#[trigger] v.pending_dirs[i].depth) <= v.max_depth,
{
}

/// Law: in every well-formed crawl state, the set of successfully
/// downloaded files holds each URL at most once, and only URLs this run
/// has requested — so a URL in the set is never fetched again, whatever
/// path through the tree rediscovers it.
pub proof fn lemma_downloaded_within_trace(v: CrawlerView)
    requires
        crawl_inv(v),
    ensures
        forall|i: int, j: int|
            0 <= i < j < v.downloaded.len() ==> v.downloaded[i] != v.downloaded[j],
        forall|i: int|
            0 <= i < v.downloaded.len() ==> v.requested.contains(#[trigger] v.downloaded[i]),
{
}

proof fn lemma_push_contains<T>(s: Seq<T>, c: T, x: T)
    ensures
        s.push(c).contains(x) <==> (s.contains(x) || x == c),
{
    if s.push(c).contains(x) {
        let i = choose|i: int| 0 <= i < s.push(c).len() && s.push(c)[i] == x;
        if i < s.len() {
            assert(s[i] == x);
        }
    }
    if s.contains(x) {
        let i = choose|i: int| 0 <= i < s.len() && s[i] == x;
        assert(s.push(c)[i] == x);
    }
    if x == c {
        assert(s.push(c)[s.len() as int] == x);
    }
}

proof fn lemma_distinct_push<T>(s: Seq<T>, c: T)
    requires
        distinct_seq(s),
        !s.contains(c),
    ensures
        distinct_seq(s.push(c)),
{
    assert forall|i: int, j: int| 0 <= i < j < s.push(c).len() implies s.push(c)[i] != s.push(
        c,
    )[j] by {
        if j == s.len() {
            if s[i] == c {
                assert(s.contains(c));
            }
        }
    }
}

/// Law: a URL that already stands in the request trace is never queued
/// again by a later page, however often its link is rediscovered.
pub proof fn lemma_requested_never_requeued(
    pending: Seq<Seq<char>>,
    requested: Seq<Seq<char>>,
    cands: Seq<Seq<char>>,
    x: Seq<char>,
)
    requires
        requested.contains(x),
    ensures
        queue_new_files(pending, requested, cands).contains(x) == pending.contains(x),
    decreases cands.len(),
{
    if cands.len() > 0 {
        let c = cands[0];
        if pending.contains(c) || requested.contains(c) {
            lemma_requested_never_requeued(pending, requested, cands.drop_first(), x);
        } else {
            lemma_push_contains(pending, c, x);
            lemma_requested_never_requeued(pending.push(c), requested, cands.drop_first(), x);
        }
    }
}

/// What the hyperlink extractor reads out of one page of markup: the
/// `href` targets of its anchor elements, in document order.
pub uninterp spec fn links_of(html: Seq<char>) -> Seq<Seq<char>>;

/// How many `<` characters the markup holds. Every element of a page
/// opens with one, so the nesting depth of its document tree is at most
/// this count.
pub open spec fn open_angle_count(s: Seq<char>) -> nat
    decreases s.len(),
{
    if s.len() == 0 {
        0
    } else {
        open_angle_count(s.drop_last()) + if s.last() == '<' {
            1nat
        } else {
            0nat
        }
    }
}

/// Relies on select's HTML parser: `Document::from` followed by
/// `find(Name("a"))` yields the document's anchor elements in order, a
/// function of the markup alone; `attr("href")` reads each target. The
/// parser's buffers carry 32-bit lengths, so markup of 4 GiB or more is
/// excluded: on it the parser would give up at once. The document tree
/// is flattened by recursion over nesting, so markup that could nest
/// deeper than ten thousand levels — more `<` than that — is excluded
/// too.
#[verifier::external_body]
fn extract_links(html: &str) -> (links: Vec<String>)
    requires
        html.spec_bytes().len() < 4294967296,
        open_angle_count(html@) <= 10000,
    ensures
        links.deep_view() == links_of(html@),
{
    let document = select::document::Document::from(html);
    let mut links: Vec<String> = Vec::new();
    for node in document.find(select::predicate::Name("a")) {
        if let Some(href) = node.attr("href") {
            links.push(href.to_string());
        }
    }
    links
}

/// The next transport request a driver is to perform.
pub enum Action {
    /// Fetch the listing page at `url`, which lists the directory at
    /// repository-relative `path`, `depth` levels below the root.
    FetchListing { url: String, path: String, depth: usize },
    /// Download the file at `url` to `local_path`, creating `local_dir`
    /// first.
    DownloadFile { url: String, local_path: String, local_dir: String },
    /// Both queues are empty: the crawl run is complete.
    Done,
}

/// One crawl run's state.
pub struct Crawler {
    gh: GitHub,
    prj: Project,
    max_depth: usize,
    pending_dirs: Vec<DirEntry>,
    visited: Vec<String>,
    pending_files: Vec<String>,
    requested: Vec<String>,
    downloaded: Vec<String>,
}

impl View for Crawler {
    type V = CrawlerView;

    closed spec fn view(&self) -> CrawlerView {
        CrawlerView {
            account: self.gh@.username,
            repo: self.prj@.name,
            branch: self.prj@.branch,
            max_depth: self.max_depth as nat,
            pending_dirs: self.pending_dirs.deep_view(),
            visited: self.visited.deep_view(),
            pending_files: self.pending_files.deep_view(),
            requested: self.requested.deep_view(),
            downloaded: self.downloaded.deep_view(),
        }
    }
}

/// The configuration of a crawl never changes during the run.
pub open spec fn same_config(a: CrawlerView, b: CrawlerView) -> bool {
    &&& a.account == b.account
    &&& a.repo == b.repo
    &&& a.branch == b.branch
    &&& a.max_depth == b.max_depth
}

impl Crawler {
    pub open spec fn wf(&self) -> bool {
        crawl_inv(self@)
    }

    /// Start a crawl of the configured repository: the root listing is
    /// queued at depth zero and nothing has been requested yet.
    pub fn new(gh: GitHub, prj: Project, max_depth: usize) -> (c: Crawler)
        ensures
            c.wf(),
            c@.account == gh@.username,
            c@.repo == prj@.name,
            c@.branch == prj@.branch,
            c@.max_depth == max_depth as nat,
            c@.pending_dirs == (seq![DirEntryView { path: Seq::empty(), depth: 0 }]),
            c@.visited == Seq::<Seq<char>>::empty(),
            c@.pending_files == Seq::<Seq<char>>::empty(),
            c@.requested == Seq::<Seq<char>>::empty(),
            c@.downloaded == Seq::<Seq<char>>::empty(),
    {
        let mut pending_dirs: Vec<DirEntry> = Vec::new();
        pending_dirs.push(DirEntry { path: String::new(), depth: 0 });
        let c = Crawler {
            gh,
            prj,
            max_depth,
            pending_dirs,
            visited: Vec::new(),
            pending_files: Vec::new(),
            requested: Vec::new(),
            downloaded: Vec::new(),
        };
        proof {
            assert(c@.pending_dirs =~= seq![DirEntryView { path: Seq::empty(), depth: 0 }]);
            assert(c@.visited =~= Seq::<Seq<char>>::empty());
            assert(c@.pending_files =~= Seq::<Seq<char>>::empty());
            assert(c@.requested =~= Seq::<Seq<char>>::empty());
            assert(c@.downloaded =~= Seq::<Seq<char>>::empty());
        }
        c
    }

    /// The listing URL of the directory at repository-relative `path`.
    pub fn listing_url(&self, path: &String) -> (r: String)
        ensures
            r@ == listing_url_spec(self@.account, self@.repo, self@.branch, path@),
    {
        if path.as_str().unicode_len() == 0 {
            let r = self.gh.get_index_frag().concat(self.prj.get_index_frag().as_str());
            proof {
                assert(r@ =~= listing_url_spec(self@.account, self@.repo, self@.branch, path@));
            }
            r
        } else {
            let r = self
                .gh
                .get_index_frag()
                .concat(self.prj.get_tree_frag().as_str())
                .concat("/")
                .concat(path.as_str());
            proof {
                assert(r@ =~= listing_url_spec(self@.account, self@.repo, self@.branch, path@));
            }
            r
        }
    }

    /// Yield the next request of the run. Files queued from pages already
    /// listed come first; then the next directory listing; `Done` once
    /// both queues are empty. A yielded file URL is recorded as requested
    /// and never yielded again; a yielded directory is recorded as
    /// visited and never yielded again.
    pub fn next_action(&mut self) -> (a: Action)
        requires
            old(self).wf(),
        ensures
            final(self).wf(),
            same_config(final(self)@, old(self)@),
            final(self)@.downloaded == old(self)@.downloaded,
            match a {
                Action::DownloadFile { url, local_path, local_dir } => {
                    &&& old(self)@.pending_files.len() > 0
                    &&& url@ == old(self)@.pending_files[0]
                    &&& !old(self)@.requested.contains(url@)
                    &&& local_path@ == local_path_of(url@)
                    &&& local_dir@ == dir_part_of(local_path_of(url@))
                    &&& final(self)@.pending_files == old(self)@.pending_files.drop_first()
                    &&& final(self)@.requested == old(self)@.requested.push(url@)
                    &&& final(self)@.pending_dirs == old(self)@.pending_dirs
                    &&& final(self)@.visited == old(self)@.visited
                },
                Action::FetchListing { url, path, depth } => {
                    &&& old(self)@.pending_files.len() == 0
                    &&& old(self)@.pending_dirs.len() > 0
                    &&& path@ == old(self)@.pending_dirs[0].path
                    &&& depth as nat == old(self)@.pending_dirs[0].depth
                    &&& depth as nat <= old(self)@.max_depth
                    &&& !old(self)@.visited.contains(path@)
                    &&& url@ == listing_url_spec(
                        old(self)@.account,
                        old(self)@.repo,
                        old(self)@.branch,
                        path@,
                    )
                    &&& final(self)@.pending_dirs == old(self)@.pending_dirs.drop_first()
                    &&& final(self)@.visited == old(self)@.visited.push(path@)
                    &&& final(self)@.pending_files == old(self)@.pending_files
                    &&& final(self)@.requested == old(self)@.requested
                },
                Action::Done => {
                    &&& old(self)@.pending_files.len() == 0
                    &&& old(self)@.pending_dirs.len() == 0
                    &&& final(self)@ == old(self)@
                },
            },
    {
        if self.pending_files.len() > 0 {
            let ghost v0 = self@;
            let url = self.pending_files.remove(0);
            proof {
                assert(url@ == v0.pending_files[0]);
                assert(self@.pending_files =~= v0.pending_files.drop_first());
                assert(is_prefix_of(raw_prefix(), url@));
                assert(!v0.requested.contains(url@));
            }
            let local_path = resolve_local_path(url.as_str());
            let local_dir = split_dir_from_file(local_path.as_str());
            let requested_url = url.clone();
            self.requested.push(requested_url);
            proof {
                assert(self@.requested =~= v0.requested.push(url@));
                assert forall|i: int| 0 <= i < v0.requested.len() implies v0.requested[i]
                    != url@ by {
                    if v0.requested[i] == url@ {
                        assert(v0.requested.contains(url@));
                    }
                }
                lemma_distinct_push(v0.requested, url@);
                assert forall|i: int| 0 <= i < self@.pending_files.len() implies !self@
                    .requested.contains(#[trigger] self@.pending_files[i]) by {
                    assert(self@.pending_files[i] == v0.pending_files[i + 1]);
                    lemma_push_contains(v0.requested, url@, v0.pending_files[i + 1]);
                }
                assert forall|i: int| 0 <= i < self@.pending_files.len() implies is_prefix_of(
                    raw_prefix(),
                    #[trigger] self@.pending_files[i],
                ) by {
                    assert(self@.pending_files[i] == v0.pending_files[i + 1]);
                }
                assert forall|i: int, j: int| 0 <= i < j < self@.pending_files.len() implies self@
                    .pending_files[i] != self@.pending_files[j] by {
                    assert(self@.pending_files[i] == v0.pending_files[i + 1]);
                    assert(self@.pending_files[j] == v0.pending_files[j + 1]);
                }
                lemma_dirs_inv_transfer(v0, self@);
                lemma_downloads_inv_requested_push(v0, self@, url@);
            }
            Action::DownloadFile { url, local_path, local_dir }
        } else if self.pending_dirs.len() > 0 {
            let ghost v0 = self@;
            let entry = self.pending_dirs.remove(0);
            proof {
                assert(entry@ == v0.pending_dirs[0]);
                assert(self@.pending_dirs =~= v0.pending_dirs.drop_first());
                assert(!v0.visited.contains(entry@.path));
            }
            let url = self.listing_url(&entry.path);
            let visited_path = entry.path.clone();
            self.visited.push(visited_path);
            proof {
                assert(self@.visited =~= v0.visited.push(entry@.path));
                assert forall|i: int| 0 <= i < self@.pending_dirs.len() implies !self@
                    .visited.contains(#[trigger] self@.pending_dirs[i].path) by {
                    assert(self@.pending_dirs[i] == v0.pending_dirs[i + 1]);
                    assert(v0.pending_dirs[0].path != v0.pending_dirs[i + 1].path);
                    lemma_push_contains(v0.visited, entry@.path, v0.pending_dirs[i + 1].path);
                }
                assert forall|i: int, j: int| 0 <= i < j < self@.pending_dirs.len() implies self@
                    .pending_dirs[i].path != self@.pending_dirs[j].path by {
                    assert(self@.pending_dirs[i] == v0.pending_dirs[i + 1]);
                    assert(self@.pending_dirs[j] == v0.pending_dirs[j + 1]);
                }
                assert forall|i: int| 0 <= i < self@.pending_dirs.len() implies (
                #[trigger] self@.pending_dirs[i].depth) <= self@.max_depth by {
                    assert(self@.pending_dirs[i] == v0.pending_dirs[i + 1]);
                }
                lemma_files_inv_transfer(v0, self@);
                lemma_downloads_inv_transfer(v0, self@);
            }
            Action::FetchListing { url, path: entry.path, depth: entry.depth }
        } else {
            Action::Done
        }
    }

    /// Take in the links of a successfully fetched listing page at
    /// `depth`: every new file link is queued once, and, while the depth
    /// bound allows it, every new, unvisited subdirectory is queued one
    /// level deeper.
    pub fn on_listing(&mut self, depth: usize, links: &Vec<String>)
        requires
            old(self).wf(),
        ensures
            final(self).wf(),
            same_config(final(self)@, old(self)@),
            final(self)@.requested == old(self)@.requested,
            final(self)@.visited == old(self)@.visited,
            final(self)@.downloaded == old(self)@.downloaded,
            final(self)@.pending_files == queue_new_files(
                old(self)@.pending_files,
                old(self)@.requested,
                file_links_of(links.deep_view(), old(self)@.branch),
            ),
            final(self)@.pending_dirs == (if (depth as nat) < old(self)@.max_depth {
                queue_new_dirs(
                    old(self)@.pending_dirs,
                    old(self)@.visited,
                    dir_links_of(links.deep_view(), old(self)@.branch),
                    (depth as nat) + 1,
                )
            } else {
                old(self)@.pending_dirs
            }),
    {
        let branch = self.prj.get_branch();
        let classified = classify_links(links, branch.as_str());
        let ghost v0 = self@;
        let ghost file_cands = file_links_of(links.deep_view(), v0.branch);
        let ghost dir_cands = dir_links_of(links.deep_view(), v0.branch);
        proof {
            lemma_file_links_prefixed(links.deep_view(), v0.branch);
        }
        let mut k: usize = 0;
        proof {
            assert(file_cands.skip(0) =~= file_cands);
        }
        while k < classified.file_urls.len()
            invariant
                k <= classified.file_urls.len(),
                classified.file_urls.deep_view() == file_cands,
                forall|i: int| 0 <= i < file_cands.len() ==> is_prefix_of(
                    raw_prefix(),
                    #[trigger] file_cands[i],
                ),
                crawl_inv(self@),
                same_config(self@, v0),
                self@.requested == v0.requested,
                self@.visited == v0.visited,
                self@.downloaded == v0.downloaded,
                self@.pending_dirs == v0.pending_dirs,
                queue_new_files(self@.pending_files, v0.requested, file_cands.skip(k as int))
                    == queue_new_files(v0.pending_files, v0.requested, file_cands),
            decreases classified.file_urls.len() - k,
        {
            let ghost pf = self@.pending_files;
            let ghost rest = file_cands.skip(k as int);
            proof {
                assert(rest[0] == file_cands[k as int]);
                assert(rest.drop_first() =~= file_cands.skip(k as int + 1));
            }
            let f = &classified.file_urls[k];
            proof {
                assert(f@ == file_cands[k as int]);
            }
            let in_pending = contains_str(&self.pending_files, f.as_str());
            let in_requested = contains_str(&self.requested, f.as_str());
            if !in_pending && !in_requested {
                let queued = f.clone();
                self.pending_files.push(queued);
                proof {
                    assert(self@.pending_files =~= pf.push(file_cands[k as int]));
                    lemma_distinct_push(pf, file_cands[k as int]);
                    assert forall|i: int| 0 <= i < self@.pending_files.len() implies !self@
                        .requested.contains(#[trigger] self@.pending_files[i]) by {
                        if i < pf.len() {
                            assert(self@.pending_files[i] == pf[i]);
                        }
                    }
                    assert forall|i: int| 0 <= i < self@.pending_files.len() implies is_prefix_of(
                        raw_prefix(),
                        #[trigger] self@.pending_files[i],
                    ) by {
                        if i < pf.len() {
                            assert(self@.pending_files[i] == pf[i]);
                        }
                    }
                }
            }
            k += 1;
        }
        proof {
            assert(file_cands.skip(file_cands.len() as int) =~= Seq::<Seq<char>>::empty());
        }
        if depth < self.max_depth {
            let new_depth = depth + 1;
            let ghost v1 = self@;
            let mut k: usize = 0;
            proof {
                assert(dir_cands.skip(0) =~= dir_cands);
            }
            while k < classified.dir_paths.len()
                invariant
                    k <= classified.dir_paths.len(),
                    classified.dir_paths.deep_view() == dir_cands,
                    new_depth as nat <= self@.max_depth,
                    crawl_inv(self@),
                    same_config(self@, v1),
                    self@.requested == v1.requested,
                    self@.visited == v1.visited,
                    self@.downloaded == v1.downloaded,
                    self@.pending_files == v1.pending_files,
                    queue_new_dirs(
                        self@.pending_dirs,
                        v1.visited,
                        dir_cands.skip(k as int),
                        new_depth as nat,
                    ) == queue_new_dirs(
                        v1.pending_dirs,
                        v1.visited,
                        dir_cands,
                        new_depth as nat,
                    ),
                decreases classified.dir_paths.len() - k,
            {
                let ghost pd = self@.pending_dirs;
                let ghost rest = dir_cands.skip(k as int);
                proof {
                    assert(rest[0] == dir_cands[k as int]);
                    assert(rest.drop_first() =~= dir_cands.skip(k as int + 1));
                }
                let p = &classified.dir_paths[k];
                proof {
                    assert(p@ == dir_cands[k as int]);
                }
                let in_visited = contains_str(&self.visited, p.as_str());
                let in_pending = dirs_contain_path(&self.pending_dirs, p.as_str());
                if !in_visited && !in_pending {
                    let queued_path = p.clone();
                    self.pending_dirs.push(DirEntry { path: queued_path, depth: new_depth });
                    proof {
                        let e = DirEntryView { path: dir_cands[k as int], depth: new_depth as nat };
                        assert(self@.pending_dirs =~= pd.push(e));
                        assert forall|i: int, j: int|
                            0 <= i < j < self@.pending_dirs.len() implies self@
                            .pending_dirs[i].path != self@.pending_dirs[j].path by {
                            if j < pd.len() {
                            } else {
                                if pd[i].path == e.path {
                                    assert(dirs_contain(pd, e.path));
                                }
                            }
                        }
                        assert forall|i: int| 0 <= i < self@.pending_dirs.len() implies !self@
                            .visited.contains(#[trigger] self@.pending_dirs[i].path) by {
                            if i < pd.len() {
                                assert(self@.pending_dirs[i] == pd[i]);
                            }
                        }
                        assert forall|i: int| 0 <= i < self@.pending_dirs.len() implies (
                        #[trigger] self@.pending_dirs[i].depth) <= self@.max_depth by {
                            if i < pd.len() {
                                assert(self@.pending_dirs[i] == pd[i]);
                            }
                        }
                    }
                }
                k += 1;
            }
            proof {
                assert(dir_cands.skip(dir_cands.len() as int) =~= Seq::<Seq<char>>::empty());
            }
        }
    }

    /// Take in the markup of a successfully fetched listing page at
    /// `depth`: its anchor targets are extracted, classified and queued
    /// as by [`Crawler::on_listing`]. The extractor's buffers carry
    /// 32-bit lengths and its tree walk recurses over nesting, so a page
    /// of 4 GiB or more, or with more than ten thousand `<` characters,
    /// is excluded; a driver holding one treats the fetch as failed
    /// instead.
    pub fn on_listing_page(&mut self, depth: usize, html: &str)
        requires
            old(self).wf(),
            html.spec_bytes().len() < 4294967296,
            open_angle_count(html@) <= 10000,
        ensures
            final(self).wf(),
            same_config(final(self)@, old(self)@),
            final(self)@.requested == old(self)@.requested,
            final(self)@.visited == old(self)@.visited,
            final(self)@.downloaded == old(self)@.downloaded,
            final(self)@.pending_files == queue_new_files(
                old(self)@.pending_files,
                old(self)@.requested,
                file_links_of(links_of(html@), old(self)@.branch),
            ),
            final(self)@.pending_dirs == (if (depth as nat) < old(self)@.max_depth {
                queue_new_dirs(
                    old(self)@.pending_dirs,
                    old(self)@.visited,
                    dir_links_of(links_of(html@), old(self)@.branch),
                    (depth as nat) + 1,
                )
            } else {
                old(self)@.pending_dirs
            }),
    {
        let links = extract_links(html);
        self.on_listing(depth, &links);
    }

    /// A listing fetch failed: the branch below that directory is given
    /// up, and nothing else changes — sibling branches and queued files
    /// are unaffected.
    pub fn on_listing_failed(&mut self)
        requires
            old(self).wf(),
        ensures
            final(self).wf(),
            final(self)@ == old(self)@,
    {
    }

    /// Record the transport's outcome for one requested file: a success
    /// joins the set of downloaded files, a failure leaves it unchanged.
    /// Only a URL this run has requested and not yet recorded can be
    /// reported, so the downloaded set holds each URL at most once and
    /// stays within the run's request trace.
    pub fn on_file_result(&mut self, url: &String, status: u32)
        requires
            old(self).wf(),
            old(self)@.requested.contains(url@),
            !old(self)@.downloaded.contains(url@),
        ensures
            final(self).wf(),
            same_config(final(self)@, old(self)@),
            final(self)@.pending_files == old(self)@.pending_files,
            final(self)@.pending_dirs == old(self)@.pending_dirs,
            final(self)@.visited == old(self)@.visited,
            final(self)@.requested == old(self)@.requested,
            final(self)@.downloaded == (if crate::is_success_code(status) {
                old(self)@.downloaded.push(url@)
            } else {
                old(self)@.downloaded
            }),
    {
        let ghost v0 = self@;
        if crate::status_is_success(status) {
            let recorded = url.clone();
            self.downloaded.push(recorded);
            proof {
                assert(self@.downloaded =~= v0.downloaded.push(url@));
                lemma_distinct_push(v0.downloaded, url@);
                assert forall|i: int, j: int| 0 <= i < j < self@.downloaded.len() implies self@
                    .downloaded[i] != self@.downloaded[j] by {
                    assert(self@.downloaded[i] == v0.downloaded.push(url@)[i]);
                    assert(self@.downloaded[j] == v0.downloaded.push(url@)[j]);
                }
                assert forall|i: int| 0 <= i < self@.downloaded.len() implies self@
                    .requested.contains(#[trigger] self@.downloaded[i]) by {
                    if i < v0.downloaded.len() {
                        assert(self@.downloaded[i] == v0.downloaded[i]);
                    } else {
                        assert(self@.downloaded[i] == url@);
                    }
                }
            }
        } else {
            proof {
                lemma_downloads_inv_transfer(v0, self@);
            }
        }
        proof {
            lemma_files_inv_transfer(v0, self@);
            lemma_dirs_inv_transfer(v0, self@);
        }
    }

    /// The file URLs the transport reported success for, in order.
    pub fn downloaded_files(&self) -> (r: &Vec<String>)
        ensures
            r.deep_view() == self@.downloaded,
    {
        &self.downloaded
    }

    /// The trace of file URLs handed to the transport, in order.
    pub fn requested_files(&self) -> (r: &Vec<String>)
        ensures
            r.deep_view() == self@.requested,
    {
        &self.requested
    }

    /// Whether the run is complete: nothing left to list or download.
    pub fn done(&self) -> (r: bool)
        ensures
            r == (self@.pending_files.len() == 0 && self@.pending_dirs.len() == 0),
    {
        self.pending_files.len() == 0 && self.pending_dirs.len() == 0
    }
}

/// Some queued entry carries the path `x`.
fn dirs_contain_path(v: &Vec<DirEntry>, x: &str) -> (r: bool)
    ensures
        r == dirs_contain(v.deep_view(), x@),
{
    let mut i: usize = 0;
    while i < v.len()
        invariant
            i <= v.len(),
            forall|j: int| 0 <= j < i ==> v.deep_view()[j].path != x@,
        decreases v.len() - i,
    {
        if str_eq(v[i].path.as_str(), x) {
            proof {
                assert(v.deep_view()[i as int].path == x@);
            }
            return true;
        }
        i += 1;
    }
    false
}

} // verus!
