//! Where releases are found, and whether the latest release is news.

use vstd::prelude::*;
use vstd::string::*;
use crate::text::{lowercase, to_lowercase};

verus! {

/// Knows the repository of the program and the version that is running.
#[derive(Clone)]
pub struct UpdateChecker {
    developer: String,
    repo: String,
    current_version: String,
}

impl UpdateChecker {
    /// The account that owns the repository.
    pub closed spec fn developer(&self) -> Seq<char> {
        self.developer@
    }

    /// The name of the repository.
    pub closed spec fn repo(&self) -> Seq<char> {
        self.repo@
    }

    /// The version that is running.
    pub closed spec fn current_version(&self) -> Seq<char> {
        self.current_version@
    }

    /// A checker for the repository `repo` of `developer`, run by version
    /// `current_version`.
    pub fn new(developer: String, repo: String, current_version: String) -> (checker: Self)
        ensures
            checker.developer() == developer@,
            checker.repo() == repo@,
            checker.current_version() == current_version@,
    {
        Self { developer, repo, current_version }
    }

    /// The page of the latest release.
    pub fn get_releases_url(&self) -> (url: String)
        ensures
            url@ == "https://github.com/"@ + self.developer() + "/"@ + self.repo()
                + "/releases/latest"@,
    {
        let mut url = String::new();
        url.append("https://github.com/");
        url.append(self.developer.as_str());
        url.append("/");
        url.append(self.repo.as_str());
        url.append("/releases/latest");
        url
    }

    /// The address that lists the releases, newest first.
    pub fn releases_api_url(&self) -> (url: String)
        ensures
            url@ == "https://api.github.com/repos/"@ + self.developer() + "/"@ + self.repo()
                + "/releases"@,
    {
        let mut url = String::new();
        url.append("https://api.github.com/repos/");
        url.append(self.developer.as_str());
        url.append("/");
        url.append(self.repo.as_str());
        url.append("/releases");
        url
    }

    /// The release to offer, given the tags of the releases, newest first:
    /// the newest, unless it is the running version in any letter case or
    /// there is no release at all.
    pub fn newer_release(&self, tags: &Vec<String>) -> (offer: Option<String>)
        ensures
            match offer {
                Some(tag) => tags.len() > 0 && tag@ == tags[0]@ && lowercase(tags[0]@)
                    != lowercase(self.current_version()),
                None => tags.len() == 0 || lowercase(tags[0]@) == lowercase(
                    self.current_version(),
                ),
            },
    {
        if tags.len() == 0 {
            return None;
        }
        let latest = to_lowercase(tags[0].as_str());
        let running = to_lowercase(self.current_version.as_str());
        if latest != running {
            Some(tags[0].clone())
        } else {
            None
        }
    }
}

} // verus!
