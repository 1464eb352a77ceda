//! The repository the crawl mirrors, and the branch it reads.

use vstd::prelude::*;
use vstd::string::*;

verus! {

/// Ghost image of a [`Project`] value.
pub struct ProjectView {
    pub name: Seq<char>,
    pub branch: Seq<char>,
}

/// The repository to mirror: its name and the branch whose tree is read.
pub struct Project {
    name: String,
    branch: String,
}

impl View for Project {
    type V = ProjectView;

    closed spec fn view(&self) -> ProjectView {
        ProjectView { name: self.name@, branch: self.branch@ }
    }
}

impl Project {
    pub fn new(name: &str, branch: &str) -> (prj: Project)
        ensures
            prj@.name == name@,
            prj@.branch == branch@,
    {
        Project { name: name.to_owned(), branch: branch.to_owned() }
    }

    /// The repository's path fragment with the branch appended.
    pub fn get_url_frag(&self) -> (r: String)
        ensures
            r@ == self@.name + "/"@ + self@.branch + "/"@,
    {
        self.name.clone().concat("/").concat(self.branch.as_str()).concat("/")
    }

    /// The path fragment of the branch's subtree listings.
    pub fn get_tree_frag(&self) -> (r: String)
        ensures
            r@ == self@.name + "/tree/"@ + self@.branch,
    {
        self.name.clone().concat("/tree/").concat(self.branch.as_str())
    }

    /// The path fragment of the repository's root listing.
    pub fn get_index_frag(&self) -> (r: String)
        ensures
            r@ == self@.name,
    {
        self.name.clone()
    }

    /// The branch whose tree the crawl reads.
    pub fn get_branch(&self) -> (r: String)
        ensures
            r@ == self@.branch,
    {
        self.branch.clone()
    }
}

} // verus!
