//! The admin dashboard's user actions.
use vstd::prelude::*;

use crate::text::str_eq;

verus! {

/// The query of a role change: the action ("add" or "remove") and the role.
#[derive(Clone, Debug)]
pub struct ActionQuery {
    pub action: String,
    pub role: String,
}

/// A change to a user's roles.
#[derive(Clone, Copy, Debug, PartialEq, Eq)]
pub enum RoleChange {
    Add,
    Remove,
}

/// The change an action names; any other action is not authorized.
pub fn role_change(action: &str) -> (r: Option<RoleChange>)
    ensures
        r == (if action@ == "remove"@ {
            Some(RoleChange::Remove)
        } else if action@ == "add"@ {
            Some(RoleChange::Add)
        } else {
            None
        }),
{
    if str_eq(action, "remove") {
        Some(RoleChange::Remove)
    } else if str_eq(action, "add") {
        Some(RoleChange::Add)
    } else {
        None
    }
}

} // verus!
