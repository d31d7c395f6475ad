//! A repository entry of `repos.json`.
use vstd::prelude::*;

verus! {

/// `name` is the Kubernetes namespace the repository is deployed to, `url` its project
/// page without a trailing slash.
#[derive(Clone)]
pub struct Repo {
    pub name: String,
    pub url: String,
}

pub trait Storage {
    fn list_repos(&self) -> &Vec<Repo>;
}

} // verus!
