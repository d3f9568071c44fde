//! The contact form.
use vstd::prelude::*;

verus! {

/// The subject of a contact message: the sender's name in brackets, or `[Anonymous]` when
/// no name was given.
pub fn contact_subject(name: &str, subject: &str) -> (r: String)
    ensures
        r@ == "["@ + (if name@.len() == 0 { "Anonymous"@ } else { name@ }) + "]: "@ + subject@,
{
    let mut r = String::from_str("[");
    if name.unicode_len() == 0 {
        r.append("Anonymous");
    } else {
        r.append(name);
    }
    r.append("]: ");
    r.append(subject);
    r
}

} // verus!
