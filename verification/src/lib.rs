//! Tools for a GitHub project's health: the logic of fetching, storing, summarising,
//! charting and cleaning up, with its contracts.
pub mod commands;
pub mod config;
pub mod json;
pub mod legacy;
pub mod ranking;
pub mod sorting;
pub mod table;
pub mod text;
pub mod time;

use crate::text::{chars_of, lowercase, to_lowercase_chars, trim, trim_chars};
use vstd::prelude::*;

verus! {

/// Whether an answer to a yes-or-no question is a yes: `y` or `yes` in any case, around
/// white space.
pub fn is_affirmative(input: &str) -> (r: bool)
    ensures
        r == (lowercase(trim(input@)) == "y"@ || lowercase(trim(input@)) == "yes"@),
{
    let t = trim_chars(&chars_of(input));
    let l = to_lowercase_chars(&t);
    let y = chars_of("y");
    let yes = chars_of("yes");
    crate::text::chars_equal(&l, &y) || crate::text::chars_equal(&l, &yes)
}

} // verus!
