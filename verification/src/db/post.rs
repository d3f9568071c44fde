use vstd::prelude::*;

verus! {

/// A newsletter post. Timestamps are microseconds.
#[derive(Clone, Debug)]
pub struct Post {
    pub id: i64,
    pub title: String,
    pub slug: String,
    pub author: String,
    pub content: String,
    pub created_at: i64,
    pub updated_at: i64,
}

/// The editable fields of a post.
#[derive(Clone, Debug)]
pub struct UpdatePost {
    pub title: String,
    pub slug: String,
    pub author: String,
    pub content: String,
}

} // verus!
