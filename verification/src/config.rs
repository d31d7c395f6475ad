//! What the command line asks for.
use crate::remote::Mode;
use vstd::prelude::*;

verus! {

/// Simple utility for quickly checking what commit in this pod
pub struct Args {
    /// What a pod is expected to run: the tip of the default branch, or the latest tag
    pub mode: Mode,
    /// Path to repos.json file
    pub storage_path: String,
    /// Show a single namespace instead of every namespace listed in repos.json
    pub namespace: Option<String>,
    /// Use blue and orange instead of green and red
    pub colorblind: bool,
}

} // verus!
