//! Posts: the editor's forms and the post's public address.
use vstd::prelude::*;

use crate::db::post::UpdatePost;

verus! {

/// A post edit; `id` is 0 for a new post.
#[derive(Clone, Debug)]
pub struct EditForm {
    pub id: i64,
    pub post: UpdatePost,
}

/// The answer to a post edit; `updated_at` is in milliseconds.
#[derive(Clone, Debug)]
pub struct EditResponse {
    pub id: Option<i64>,
    pub updated_at: Option<i64>,
    pub error: Option<String>,
}

/// A request to email a post to a list, or to email it again.
#[derive(Clone, Copy, Debug, PartialEq, Eq)]
pub struct SendForm {
    pub list_id: i64,
    pub resend: bool,
}

/// The answer to creating a post whose slug is already taken.
pub fn slug_taken_response() -> (r: EditResponse)
    ensures
        r.id is None,
        r.updated_at is None,
        r.error is Some && r.error->0@ == "A post with that slug already exists."@,
{
    EditResponse { id: None, updated_at: None, error: Some(String::from_str("A post with that slug already exists.")) }
}

/// The public address of a post: `{base_url}/p/{slug}`.
pub fn post_url(base_url: &str, slug: &str) -> (url: String)
    ensures
        url@ == base_url@ + "/p/"@ + slug@,
{
    let mut url = String::from_str(base_url);
    url.append("/p/");
    url.append(slug);
    url
}

} // verus!
