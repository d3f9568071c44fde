//! Passwordless login: the links sent by email and where a login lands.
use vstd::prelude::*;

use crate::cookies::{cookie_domain, max_age_cookie, strict_cookie_head, SameSitePolicy};
use crate::text::decimal_digits;

verus! {

/// The query of the login page: where to go afterwards, and the login token of a link.
#[derive(Clone, Debug)]
pub struct LoginQuery {
    pub redirect: Option<String>,
    pub token: Option<String>,
}

impl LoginQuery {
    /// Where a login lands: the requested page, or the home page.
    pub fn redirect(&self) -> (target: String)
        ensures
            target@ == match self.redirect {
                Some(url) => url@,
                None => "/"@,
            },
    {
        match &self.redirect {
            Some(url) => url.clone(),
            None => String::from_str("/"),
        }
    }
}

/// The link emailed for a login: `{base_url}/login?token={token}`, with `&redirect={redirect}`
/// when the login was asked for from another page.
pub fn login_url(base_url: &str, token: &str, redirect: Option<&str>) -> (url: String)
    ensures
        url@ == base_url@ + "/login?token="@ + token@ + match redirect {
            Some(r) => "&redirect="@ + r@,
            None => Seq::<char>::empty(),
        },
{
    let mut url = String::from_str(base_url);
    url.append("/login?token=");
    url.append(token);
    match redirect {
        Some(r) => {
            url.append("&redirect=");
            url.append(r);
        },
        None => {},
    }
    url
}

/// The subject of the login email: `Login to {domain}`.
pub fn login_subject(domain: &str) -> (subject: String)
    ensures
        subject@ == "Login to "@ + domain@,
{
    let mut subject = String::from_str("Login to ");
    subject.append(domain);
    subject
}

/// The `Set-Cookie` value of a login session: the token, valid on `domain` for
/// `expiry_days` days; `secure` when the site is served over TLS.
pub fn session_cookie(secure: bool, domain: &str, expiry_days: u64, token: String) -> (c: String)
    requires
        expiry_days <= i64::MAX / 86400,
    ensures
        c@ == strict_cookie_head("session"@, token@, secure) + "; Domain="@ + cookie_domain(domain@) + "; Max-Age="@
            + decimal_digits((expiry_days * 86400) as nat),
{
    max_age_cookie("session", token.as_str(), true, SameSitePolicy::Strict, secure, domain, expiry_days)
}

} // verus!
