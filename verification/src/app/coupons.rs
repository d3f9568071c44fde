//! The coupon editor: codes must stay unique.
use vstd::prelude::*;

verus! {

/// A code entered for coupon `id` (0 for a new one) clashes when another coupon, with the
/// id `existing`, already has it.
pub fn code_conflicts(existing: Option<i64>, id: i64) -> (r: bool)
    ensures
        r == (existing is Some && existing->0 != id),
{
    match existing {
        Some(other) => other != id,
        None => false,
    }
}

/// The message for a code that another coupon already has.
pub fn code_taken_message(code: &str) -> (m: String)
    ensures
        m@ == "Code '"@ + code@ + "' already exists."@,
{
    let mut m = String::from_str("Code '");
    m.append(code);
    m.append("' already exists.");
    m
}

} // verus!
