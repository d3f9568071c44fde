use vstd::prelude::*;

verus! {

/// A mailing or guest list. Timestamps are microseconds.
#[derive(Clone, Debug)]
pub struct List {
    pub id: i64,
    pub name: String,
    pub description: String,
    pub created_at: i64,
    pub updated_at: i64,
}

/// A list as submitted by the list editor, with the emails to add, one per line.
#[derive(Clone, Debug)]
pub struct UpdateList {
    pub id: Option<i64>,
    pub name: String,
    pub description: String,
    pub emails: String,
}

/// A list with its number of members.
#[derive(Clone, Debug)]
pub struct ListWithCount {
    pub id: i64,
    pub name: String,
    pub description: String,
    pub created_at: i64,
    pub updated_at: i64,
    pub count: i64,
}

} // verus!
