//! The one error type this tool reports: a message for the user.
use vstd::prelude::*;

verus! {

#[derive(Debug)]
pub struct MsgError {
    pub details: String,
}

impl MsgError {
    pub fn new(msg: &str) -> (r: MsgError)
        ensures
            r.details@ == msg@,
    {
        MsgError { details: String::from_str(msg) }
    }
}

} // verus!
