use vstd::prelude::*;

verus! {

/// A "contact us" form submission.
#[derive(Clone, Debug)]
pub struct ContactUs {
    pub id: i64,
    pub name: Option<String>,
    pub reply_to: Option<String>,
    pub subject: String,
    pub message: String,
    pub created_at: i64,
}

/// The fields of a new "contact us" submission.
#[derive(Clone, Debug)]
pub struct CreateContactUs {
    pub name: Option<String>,
    pub reply_to: Option<String>,
    pub subject: String,
    pub message: String,
}

} // verus!
