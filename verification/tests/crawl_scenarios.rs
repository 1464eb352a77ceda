//! End-to-end crawl runs against a scripted transport and a modelled disk.

use ghwcli::crawl::{Action, Crawler};
use ghwcli::github::GitHub;
use ghwcli::mirror::{save_outcome, SaveOutcome};
use ghwcli::project::Project;

/// A scripted remote site: listing pages by URL, and per-file statuses.
struct FakeSite {
    /// (listing URL, transport status, page markup)
    listings: Vec<(String, u32, String)>,
    /// (file URL, transport status); a file not listed here answers 200
    file_status: Vec<(String, u32)>,
}

/// What one crawl run did to the transport and to the modelled disk.
struct CrawlLog {
    /// every URL handed to GET, listings and files alike, in order
    gets: Vec<String>,
    /// local paths of files kept on disk
    disk: Vec<String>,
    /// local directories created (a repeated creation is a no-op)
    dirs: Vec<String>,
    /// local paths where a partial file existed during the run
    partials: Vec<String>,
}

fn run_crawl(site: &FakeSite, account: &str, repo: &str, branch: &str, depth: usize) -> CrawlLog {
    let gh = GitHub::new(account, "-");
    let prj = Project::new(repo, branch);
    let mut crawler = Crawler::new(gh, prj, depth);
    let mut log = CrawlLog { gets: Vec::new(), disk: Vec::new(), dirs: Vec::new(), partials: Vec::new() };
    let mut steps = 0;
    loop {
        steps += 1;
        assert!(steps < 10_000, "crawl did not terminate");
        match crawler.next_action() {
            Action::FetchListing { url, depth, .. } => {
                log.gets.push(url.clone());
                match site.listings.iter().find(|(u, _, _)| *u == url) {
                    Some((_, st, html)) if *st == 200 => crawler.on_listing_page(depth, html),
                    _ => crawler.on_listing_failed(),
                }
            }
            Action::DownloadFile { url, local_path, local_dir } => {
                log.gets.push(url.clone());
                // idempotent directory creation: creating a directory that
                // already exists is a no-op, never an error
                if !log.dirs.contains(&local_dir) {
                    log.dirs.push(local_dir.clone());
                }
                let status = site
                    .file_status
                    .iter()
                    .find(|(u, _)| *u == url)
                    .map(|(_, s)| *s)
                    .unwrap_or(200);
                // the body streams to the local path first ...
                log.partials.push(local_path.clone());
                // ... and is kept or removed by the reported status
                match save_outcome(status) {
                    SaveOutcome::Kept => log.disk.push(local_path.clone()),
                    SaveOutcome::Removed => {}
                }
                crawler.on_file_result(&url, status);
            }
            Action::Done => break,
        }
    }
    log
}

fn page(anchors: &[&str]) -> String {
    let mut body = String::from("<html><body><ul>");
    for a in anchors {
        body.push_str(&format!("<li><a href=\"{}\">entry</a></li>", a));
    }
    body.push_str("</ul><a>no target</a></body></html>");
    body
}

fn count(haystack: &[String], needle: &str) -> usize {
    haystack.iter().filter(|s| *s == needle).count()
}

#[test]
fn scenario_root_file_and_subdirectory() {
    let site = FakeSite {
        listings: vec![
            (
                "https://github.com/acct/repo".to_string(),
                200,
                page(&["/acct/repo/blob/main/README.md", "/acct/repo/tree/main/src"]),
            ),
            (
                "https://github.com/acct/repo/tree/main/src".to_string(),
                200,
                page(&["/acct/repo/blob/main/src/lib.rs", "/acct/repo/tree/main"]),
            ),
        ],
        file_status: vec![],
    };
    let log = run_crawl(&site, "acct", "repo", "main", 4);
    assert_eq!(
        log.disk,
        vec![
            "__git__/acct/repo/main/README.md".to_string(),
            "__git__/acct/repo/main/src/lib.rs".to_string(),
        ]
    );
    assert_eq!(count(&log.gets, "https://raw.githubusercontent.com/acct/repo/main/README.md"), 1);
    assert_eq!(count(&log.gets, "https://raw.githubusercontent.com/acct/repo/main/src/lib.rs"), 1);
}

#[test]
fn scenario_duplicate_link_downloads_once() {
    // the same file link stands in the root listing and in the
    // subdirectory listing; it is fetched once and lands on disk once
    let site = FakeSite {
        listings: vec![
            (
                "https://github.com/acct/repo".to_string(),
                200,
                page(&["/acct/repo/blob/main/README.md", "/acct/repo/tree/main/src"]),
            ),
            (
                "https://github.com/acct/repo/tree/main/src".to_string(),
                200,
                page(&["/acct/repo/blob/main/README.md", "/acct/repo/blob/main/src/lib.rs"]),
            ),
        ],
        file_status: vec![],
    };
    let log = run_crawl(&site, "acct", "repo", "main", 4);
    assert_eq!(count(&log.gets, "https://raw.githubusercontent.com/acct/repo/main/README.md"), 1);
    assert_eq!(count(&log.disk, "__git__/acct/repo/main/README.md"), 1);
    assert_eq!(count(&log.disk, "__git__/acct/repo/main/src/lib.rs"), 1);
}

#[test]
fn scenario_duplicate_link_on_one_page_downloads_once() {
    let site = FakeSite {
        listings: vec![(
            "https://github.com/acct/repo".to_string(),
            200,
            page(&["/acct/repo/blob/main/README.md", "/acct/repo/blob/main/README.md"]),
        )],
        file_status: vec![],
    };
    let log = run_crawl(&site, "acct", "repo", "main", 4);
    assert_eq!(count(&log.gets, "https://raw.githubusercontent.com/acct/repo/main/README.md"), 1);
    assert_eq!(log.disk, vec!["__git__/acct/repo/main/README.md".to_string()]);
}

#[test]
fn scenario_failed_subdirectory_spares_siblings() {
    // one subdirectory listing answers 500: its files stay absent, the
    // sibling subdirectory's files are still mirrored
    let site = FakeSite {
        listings: vec![
            (
                "https://github.com/acct/repo".to_string(),
                200,
                page(&["/acct/repo/tree/main/bad", "/acct/repo/tree/main/src"]),
            ),
            (
                "https://github.com/acct/repo/tree/main/bad".to_string(),
                500,
                page(&["/acct/repo/blob/main/bad/lost.txt"]),
            ),
            (
                "https://github.com/acct/repo/tree/main/src".to_string(),
                200,
                page(&["/acct/repo/blob/main/src/kept.txt"]),
            ),
        ],
        file_status: vec![],
    };
    let log = run_crawl(&site, "acct", "repo", "main", 4);
    assert_eq!(count(&log.gets, "https://github.com/acct/repo/tree/main/bad"), 1);
    assert!(!log.disk.contains(&"__git__/acct/repo/main/bad/lost.txt".to_string()));
    assert_eq!(log.disk, vec!["__git__/acct/repo/main/src/kept.txt".to_string()]);
}

#[test]
fn scenario_depth_bound_stops_at_four() {
    // directories nested one to four levels deep are listed; the one
    // nested five levels deep is never visited and nothing fails
    let mut listings = vec![(
        "https://github.com/acct/repo".to_string(),
        200,
        page(&["/acct/repo/tree/main/d1"]),
    )];
    let chain = ["d1", "d1/d2", "d1/d2/d3", "d1/d2/d3/d4", "d1/d2/d3/d4/d5"];
    for (i, dir) in chain.iter().enumerate() {
        let child = if i + 1 < chain.len() {
            format!("/acct/repo/tree/main/{}", chain[i + 1])
        } else {
            String::new()
        };
        let file = format!("/acct/repo/blob/main/{}/here.txt", dir);
        let anchors: Vec<&str> = if child.is_empty() {
            vec![file.as_str()]
        } else {
            vec![file.as_str(), child.as_str()]
        };
        listings.push((
            format!("https://github.com/acct/repo/tree/main/{}", dir),
            200,
            page(&anchors),
        ));
    }
    let site = FakeSite { listings, file_status: vec![] };
    let log = run_crawl(&site, "acct", "repo", "main", 4);
    for dir in &chain[..4] {
        assert_eq!(count(&log.gets, &format!("https://github.com/acct/repo/tree/main/{}", dir)), 1);
        assert!(log.disk.contains(&format!("__git__/acct/repo/main/{}/here.txt", dir)));
    }
    assert_eq!(count(&log.gets, "https://github.com/acct/repo/tree/main/d1/d2/d3/d4/d5"), 0);
    assert!(!log.disk.contains(&"__git__/acct/repo/main/d1/d2/d3/d4/d5/here.txt".to_string()));
}

#[test]
fn scenario_failed_download_leaves_no_partial_file() {
    let site = FakeSite {
        listings: vec![(
            "https://github.com/acct/repo".to_string(),
            200,
            page(&["/acct/repo/blob/main/broken.txt", "/acct/repo/blob/main/whole.txt"]),
        )],
        file_status: vec![(
            "https://raw.githubusercontent.com/acct/repo/main/broken.txt".to_string(),
            500,
        )],
    };
    let log = run_crawl(&site, "acct", "repo", "main", 4);
    // the partial file existed during the download ...
    assert!(log.partials.contains(&"__git__/acct/repo/main/broken.txt".to_string()));
    // ... and none of it remains afterwards
    assert!(!log.disk.contains(&"__git__/acct/repo/main/broken.txt".to_string()));
    assert_eq!(log.disk, vec!["__git__/acct/repo/main/whole.txt".to_string()]);
}

#[test]
fn scenario_same_directory_materialized_twice() {
    // two files of one directory: its path is derived both times, the
    // second creation is a no-op and the run completes without error
    let site = FakeSite {
        listings: vec![(
            "https://github.com/acct/repo".to_string(),
            200,
            page(&["/acct/repo/blob/main/x/a.txt", "/acct/repo/blob/main/x/b.txt"]),
        )],
        file_status: vec![],
    };
    let log = run_crawl(&site, "acct", "repo", "main", 4);
    assert_eq!(count(&log.dirs, "__git__/acct/repo/main/x"), 1);
    assert_eq!(
        log.disk,
        vec![
            "__git__/acct/repo/main/x/a.txt".to_string(),
            "__git__/acct/repo/main/x/b.txt".to_string(),
        ]
    );
}

#[test]
fn scenario_breadcrumb_and_self_links_cause_no_refetch() {
    // the subdirectory page links back to its parent and to itself; the
    // visited set keeps every listing at one fetch and the run finite
    let site = FakeSite {
        listings: vec![
            (
                "https://github.com/acct/repo".to_string(),
                200,
                page(&["/acct/repo/tree/main/src"]),
            ),
            (
                "https://github.com/acct/repo/tree/main/src".to_string(),
                200,
                page(&[
                    "/acct/repo/tree/main/src",
                    "/acct/repo/tree/main/src/deep",
                    "/acct/repo/blob/main/src/f.txt",
                ]),
            ),
            (
                "https://github.com/acct/repo/tree/main/src/deep".to_string(),
                200,
                page(&["/acct/repo/tree/main/src", "/acct/repo/blob/main/src/deep/g.txt"]),
            ),
        ],
        file_status: vec![],
    };
    let log = run_crawl(&site, "acct", "repo", "main", 4);
    assert_eq!(count(&log.gets, "https://github.com/acct/repo/tree/main/src"), 1);
    assert_eq!(count(&log.gets, "https://github.com/acct/repo/tree/main/src/deep"), 1);
    assert!(log.disk.contains(&"__git__/acct/repo/main/src/f.txt".to_string()));
    assert!(log.disk.contains(&"__git__/acct/repo/main/src/deep/g.txt".to_string()));
}

#[test]
fn scenario_external_and_foreign_branch_links_ignored() {
    let site = FakeSite {
        listings: vec![(
            "https://github.com/acct/repo".to_string(),
            200,
            page(&[
                "https://example.org/elsewhere",
                "/acct/repo/blob/other/skipped.txt",
                "/acct/repo/blob/main/taken.txt",
                "/acct/repo",
                "#section",
            ]),
        )],
        file_status: vec![],
    };
    let log = run_crawl(&site, "acct", "repo", "main", 4);
    assert_eq!(log.disk, vec!["__git__/acct/repo/main/taken.txt".to_string()]);
    assert_eq!(log.gets.len(), 2);
}

#[test]
fn scenario_empty_listing_finishes_clean() {
    let site = FakeSite {
        listings: vec![("https://github.com/acct/repo".to_string(), 200, page(&[]))],
        file_status: vec![],
    };
    let log = run_crawl(&site, "acct", "repo", "main", 4);
    assert_eq!(log.gets, vec!["https://github.com/acct/repo".to_string()]);
    assert!(log.disk.is_empty());
    assert!(log.dirs.is_empty());
}

#[test]
fn scenario_failed_root_listing_finishes_clean() {
    let site = FakeSite { listings: vec![], file_status: vec![] };
    let log = run_crawl(&site, "acct", "repo", "main", 4);
    assert_eq!(log.gets, vec!["https://github.com/acct/repo".to_string()]);
    assert!(log.disk.is_empty());
}

#[test]
fn crawler_reports_requested_and_downloaded() {
    let site = FakeSite {
        listings: vec![(
            "https://github.com/acct/repo".to_string(),
            200,
            page(&["/acct/repo/blob/main/ok.txt", "/acct/repo/blob/main/gone.txt"]),
        )],
        file_status: vec![(
            "https://raw.githubusercontent.com/acct/repo/main/gone.txt".to_string(),
            404,
        )],
    };
    let gh = GitHub::new("acct", "-");
    let prj = Project::new("repo", "main");
    let mut crawler = Crawler::new(gh, prj, 4);
    let mut steps = 0;
    loop {
        steps += 1;
        assert!(steps < 1000);
        match crawler.next_action() {
            Action::FetchListing { url, depth, .. } => {
                let html = &site.listings.iter().find(|(u, _, _)| *u == url).unwrap().2;
                crawler.on_listing_page(depth, html);
            }
            Action::DownloadFile { url, .. } => {
                let status = site
                    .file_status
                    .iter()
                    .find(|(u, _)| *u == url)
                    .map(|(_, s)| *s)
                    .unwrap_or(200);
                crawler.on_file_result(&url, status);
            }
            Action::Done => break,
        }
    }
    assert!(crawler.done());
    assert_eq!(
        crawler.requested_files(),
        &vec![
            "https://raw.githubusercontent.com/acct/repo/main/ok.txt".to_string(),
            "https://raw.githubusercontent.com/acct/repo/main/gone.txt".to_string(),
        ]
    );
    assert_eq!(
        crawler.downloaded_files(),
        &vec!["https://raw.githubusercontent.com/acct/repo/main/ok.txt".to_string()]
    );
}
