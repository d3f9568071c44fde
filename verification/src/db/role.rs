use vstd::prelude::*;

verus! {

/// A named role.
#[derive(Clone, Debug)]
pub struct Role {
    pub id: i64,
    pub name: String,
}

/// A role held by a user. Timestamps are microseconds.
#[derive(Clone, Debug)]
pub struct UserRole {
    pub user_id: i64,
    pub role: String,
    pub created_at: i64,
}

/// The fields of a new role.
#[derive(Clone, Debug)]
pub struct CreateRole {
    pub name: String,
}

} // verus!
