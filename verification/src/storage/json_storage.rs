//! The repositories read out of `repos.json`. Reading and parsing the file is left to the
//! caller, which hands over the entries.
use crate::chars::same_str;
use crate::storage::common::{Repo, Storage};
use vstd::prelude::*;

verus! {

pub struct JsonStorage {
    repos: Vec<Repo>,
}

/// Index of the first entry named `name`, or -1.
pub open spec fn first_named(repos: Seq<Repo>, name: Seq<char>) -> int
    decreases repos.len(),
{
    if repos.len() == 0 {
        -1
    } else if repos[0].name@ == name {
        0
    } else {
        let r = first_named(repos.drop_first(), name);
        if r < 0 {
            -1
        } else {
            r + 1
        }
    }
}

impl JsonStorage {
    pub closed spec fn entries(&self) -> Seq<Repo> {
        self.repos@
    }

    pub fn from_repos(repos: Vec<Repo>) -> (r: JsonStorage)
        ensures
            r.entries() == repos@,
    {
        JsonStorage { repos }
    }

    /// The first entry for namespace `name`.
    pub fn get_repo_by_name(&self, name: &str) -> (r: Option<&Repo>)
        ensures
            match r {
                Some(repo) => first_named(self.entries(), name@) >= 0 && *repo == self.entries()[first_named(
                    self.entries(),
                    name@,
                )],
                None => first_named(self.entries(), name@) == -1,
            },
    {
        let mut i: usize = 0;
        proof {
            assert(self.repos@.skip(0) =~= self.repos@);
        }
        while i < self.repos.len()
            invariant
                i <= self.repos@.len(),
                first_named(self.repos@, name@) == if first_named(
                    self.repos@.skip(i as int),
                    name@,
                ) < 0 {
                    -1
                } else {
                    first_named(self.repos@.skip(i as int), name@) + i
                },
            decreases self.repos@.len() - i,
        {
            proof {
                assert(self.repos@.skip(i as int)[0] == self.repos@[i as int]);
                assert(self.repos@.skip(i as int).drop_first() =~= self.repos@.skip(i + 1));
            }
            if same_str(self.repos[i].name.as_str(), name) {
                return Some(&self.repos[i]);
            }
            i += 1;
        }
        assert(self.repos@.skip(i as int).len() == 0);
        None
    }
}

impl Storage for JsonStorage {
    fn list_repos(&self) -> (r: &Vec<Repo>)
        ensures
            r@ == self.entries(),
    {
        &self.repos
    }
}

} // verus!
