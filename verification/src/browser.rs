//! Where a deployed commit can be looked at.
use crate::chars::concat;
use vstd::prelude::*;

verus! {

/// The page of commit `hash` in the project at `url`, GitLab style.
pub open spec fn commit_url_spec(url: Seq<char>, hash: Seq<char>) -> Seq<char> {
    url + "/-/commit/"@ + hash
}

/// The page of commit `hash` in the project at `url`: `<url>/-/commit/<hash>`.
pub fn commit_url(url: &str, hash: &str) -> (r: String)
    ensures
        r@ == commit_url_spec(url@, hash@),
{
    let head = concat(url, "/-/commit/");
    concat(head.as_str(), hash)
}

} // verus!
