use vstd::prelude::*;

verus! {

/// A record of a database migration.
#[derive(Clone, Debug)]
pub struct Migration {
    pub id: i64,
    pub name: String,
}

} // verus!
