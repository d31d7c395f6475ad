//! A repository entry whose fields are reached through its spec accessors, with a listing trait that hands out owned entries.
use vstd::prelude::*;

verus! {

pub struct Repo {
    name: String,
    url: String,
}

impl Repo {
    pub closed spec fn name_spec(&self) -> String {
        self.name
    }

    pub closed spec fn url_spec(&self) -> String {
        self.url
    }

    pub fn new(name: String, url: String) -> (r: Repo)
        ensures
            r.name_spec() == name,
            r.url_spec() == url,
    {
        Repo { name, url }
    }
}

pub trait Storage {
    fn list_repos(&self) -> Vec<Repo>;
}

} // verus!
