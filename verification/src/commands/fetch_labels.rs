//! Repository labels as the GitHub REST API lists them.
use vstd::prelude::*;

verus! {

/// A repository label.
pub struct Label {
    pub name: String,
    pub color: String,
    pub description: Option<String>,
}

/// Whether a page of labels was the last one: it held fewer than `per_page` labels.
pub fn is_last_page(page_len: usize, per_page: usize) -> (r: bool)
    ensures
        r == (page_len < per_page),
{
    page_len < per_page
}

} // verus!
