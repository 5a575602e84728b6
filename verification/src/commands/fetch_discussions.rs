//! GitHub discussions as they are fetched and stored.
use vstd::prelude::*;

verus! {

/// The author of a discussion.
pub struct Author {
    pub login: String,
}

/// The category of a discussion.
pub struct Category {
    pub name: String,
}

/// How many comments a discussion has.
pub struct Comments {
    pub total_count: u64,
}

/// A discussion, with the fields that the GraphQL query asks for.
pub struct Discussion {
    pub number: u64,
    pub title: String,
    pub body_text: String,
    pub url: String,
    pub created_at: String,
    pub updated_at: String,
    pub closed_at: Option<String>,
    pub closed: bool,
    pub state_reason: Option<String>,
    pub is_answered: Option<bool>,
    pub locked: bool,
    pub author: Option<Author>,
    pub category: Category,
    pub comments: Comments,
    pub upvote_count: u64,
}

} // verus!
