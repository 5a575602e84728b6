//! The credentials and repository of the label clean-up tool.
use vstd::prelude::*;

verus! {

/// A token with the owner and name of the repository it works on.
pub struct Config {
    pub github_token: String,
    pub repo_owner: String,
    pub repo_name: String,
}

} // verus!
