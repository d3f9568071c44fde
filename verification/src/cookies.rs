//! `Set-Cookie` values for the site's session cookies, rendered by the `cookie` crate.
use cookie::{Cookie, SameSite};
use vstd::prelude::*;

use crate::text::decimal_digits;

verus! {

/// `domain` without one leading dot, as `Cookie::domain` reports it.
pub open spec fn cookie_domain(domain: Seq<char>) -> Seq<char> {
    if domain.len() > 0 && domain[0] == '.' {
        domain.drop_first()
    } else {
        domain
    }
}

/// The `SameSite` attribute that a cookie carries.
#[derive(Clone, Copy, Debug)]
pub enum SameSitePolicy {
    /// `SameSite=Strict`: sent only with requests from the site itself.
    Strict,
    /// `SameSite=Lax`: also sent when following a link to the site.
    Lax,
    /// `SameSite=None`: sent with cross-site requests too.
    Unrestricted,
}

/// How `SameSite`'s `Display` writes the attribute's value.
pub open spec fn same_site_text(same_site: SameSitePolicy) -> Seq<char> {
    match same_site {
        SameSitePolicy::Strict => "Strict"@,
        SameSitePolicy::Lax => "Lax"@,
        SameSitePolicy::Unrestricted => "None"@,
    }
}

/// The start of a cookie as `Cookie`'s `Display` writes it when its secure flag is set
/// either way: `name=value`, `; HttpOnly` when HTTP-only, `; SameSite=..`, and `; Secure`
/// when secure.
pub open spec fn cookie_head(
    name: Seq<char>,
    value: Seq<char>,
    http_only: bool,
    same_site: SameSitePolicy,
    secure: bool,
) -> Seq<char> {
    name + "="@ + value + (if http_only {
        "; HttpOnly"@
    } else {
        Seq::empty()
    }) + "; SameSite="@ + same_site_text(same_site) + if secure {
        "; Secure"@
    } else {
        Seq::empty()
    }
}

/// The start of a strict, HTTP-only cookie: `name=value; HttpOnly; SameSite=Strict`, then
/// `; Secure` when asked for.
pub open spec fn strict_cookie_head(name: Seq<char>, value: Seq<char>, secure: bool) -> Seq<char> {
    cookie_head(name, value, true, SameSitePolicy::Strict, secure)
}

/// Builds with `Cookie::build((name, value))`, `.secure(secure)`, `.http_only(http_only)`,
/// `.same_site(..)` (the `cookie::SameSite` variant of the same name), `.domain(domain)` and
/// `.path(path)`, and renders it with `to_string`. The crate's `Display` writes
/// `name=value`, then `; HttpOnly` when HTTP-only, `; SameSite=..`, `; Secure` when secure is
/// set (it is always given, so `SameSite=None` adds nothing), `; Path=..`, and `; Domain=..`
/// with one leading dot dropped; it does not percent-encode.
#[verifier::external_body]
pub(crate) fn path_cookie(
    name: &str,
    value: &str,
    http_only: bool,
    same_site: SameSitePolicy,
    secure: bool,
    domain: &str,
    path: &str,
) -> (c: String)
    ensures
        c@ == cookie_head(name@, value@, http_only, same_site, secure) + "; Path="@ + path@ + "; Domain="@
            + cookie_domain(domain@),
{
    let same_site = match same_site {
        SameSitePolicy::Strict => SameSite::Strict,
        SameSitePolicy::Lax => SameSite::Lax,
        SameSitePolicy::Unrestricted => SameSite::None,
    };
    Cookie::build((name.to_owned(), value.to_owned()))
        .secure(secure)
        .http_only(http_only)
        .same_site(same_site)
        .domain(domain.to_owned())
        .path(path.to_owned())
        .to_string()
}

/// Builds with `Cookie::build((name, value))`, `.secure(secure)`, `.http_only(http_only)`,
/// `.same_site(..)` (the `cookie::SameSite` variant of the same name), `.domain(domain)` and
/// `.max_age(cookie::time::Duration::days(days))`, and renders it with `to_string`: after the
/// head and `; Domain=..` the crate writes `; Max-Age=` and the whole seconds.
/// `Duration::days` panics when the seconds overflow an `i64`, which `requires` rules out.
#[verifier::external_body]
pub(crate) fn max_age_cookie(
    name: &str,
    value: &str,
    http_only: bool,
    same_site: SameSitePolicy,
    secure: bool,
    domain: &str,
    days: u64,
) -> (c: String)
    requires
        days <= i64::MAX / 86400,
    ensures
        c@ == cookie_head(name@, value@, http_only, same_site, secure) + "; Domain="@ + cookie_domain(domain@)
            + "; Max-Age="@ + decimal_digits((days * 86400) as nat),
{
    let same_site = match same_site {
        SameSitePolicy::Strict => SameSite::Strict,
        SameSitePolicy::Lax => SameSite::Lax,
        SameSitePolicy::Unrestricted => SameSite::None,
    };
    Cookie::build((name.to_owned(), value.to_owned()))
        .secure(secure)
        .http_only(http_only)
        .same_site(same_site)
        .domain(domain.to_owned())
        .max_age(cookie::time::Duration::days(days as i64))
        .to_string()
}

} // verus!
