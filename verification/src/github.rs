//! The hosting-site account: who the crawl addresses its requests to.

use vstd::prelude::*;
use vstd::string::*;

verus! {

/// Ghost image of a [`GitHub`] value.
pub struct GitHubView {
    pub username: Seq<char>,
    pub password: Seq<char>,
}

/// An account on the hosting site, together with the fixed URL roots of
/// the site's listing pages and of its raw file content.
pub struct GitHub {
    username: String,
    password: String,
}

impl View for GitHub {
    type V = GitHubView;

    closed spec fn view(&self) -> GitHubView {
        GitHubView { username: self.username@, password: self.password@ }
    }
}

impl GitHub {
    pub fn new(username: &str, password: &str) -> (gh: GitHub)
        ensures
            gh@.username == username@,
            gh@.password == password@,
    {
        GitHub { username: username.to_owned(), password: password.to_owned() }
    }

    /// The root under which listing pages live.
    pub fn get_root_url(&self) -> (r: String)
        ensures
            r@ == "https://github.com"@,
    {
        String::from_str("https://github.com")
    }

    /// The root under which raw file content lives.
    pub fn get_base_url(&self) -> (r: String)
        ensures
            r@ == "https://raw.githubusercontent.com"@,
    {
        String::from_str("https://raw.githubusercontent.com")
    }

    /// The raw-content root narrowed to this account.
    pub fn get_url_frag(&self) -> (r: String)
        ensures
            r@ == "https://raw.githubusercontent.com"@ + "/"@ + self@.username + "/"@,
    {
        self.get_base_url().concat("/").concat(self.username.as_str()).concat("/")
    }

    /// The listing root narrowed to this account.
    pub fn get_index_frag(&self) -> (r: String)
        ensures
            r@ == "https://github.com"@ + "/"@ + self@.username + "/"@,
    {
        self.get_root_url().concat("/").concat(self.username.as_str()).concat("/")
    }
}

} // verus!
