pub mod admin;
pub mod auth;
pub mod contact;
pub mod coupons;
pub mod events;
pub mod gallery;
pub mod posts;
pub mod webhooks;
pub mod lists;
pub mod bulletin;

use vstd::prelude::*;

use crate::text::{before_char, decimal_digits, decimal_string, find_char, str_eq};

verus! {

/// Where a request to a secondary host is sent: requests without a host, to the canonical
/// domain (ignoring a port), or to the Stripe webhook (which does not follow redirects) are
/// served as they are; any other goes permanently to the same path and query at `app_url`.
pub open spec fn secondary_redirect(
    host: Option<Seq<char>>,
    domain: Seq<char>,
    path: Seq<char>,
    path_and_query: Option<Seq<char>>,
    app_url: Seq<char>,
) -> Option<Seq<char>> {
    let canonical = match host {
        None => true,
        Some(h) => before_char(h, ':') == domain,
    };
    if canonical || path == "/webhooks/stripe"@ {
        None
    } else {
        Some(app_url + match path_and_query {
            Some(pq) => pq,
            None => "/"@,
        })
    }
}

/// Permanently redirect requests for non-canonical hosts to the app's URL.
pub fn secondary_host_redirect(
    host: Option<&str>,
    domain: &str,
    path: &str,
    path_and_query: Option<&str>,
    app_url: &str,
) -> (r: Option<String>)
    ensures
        (match r {
            Some(u) => Some(u@),
            None => None::<Seq<char>>,
        }) == secondary_redirect(
            match host {
                Some(h) => Some(h@),
                None => None,
            },
            domain@,
            path@,
            match path_and_query {
                Some(pq) => Some(pq@),
                None => None,
            },
            app_url@,
        ),
{
    // Strip an explicit port, e.g. localhost:4433 in dev
    let canonical = match host {
        None => true,
        Some(h) => match find_char(h, ':') {
            None => str_eq(h, domain),
            Some(k) => {
                let name = h.substring_char(0, k);
                proof {
                    assert(name@ =~= h@.take(k as int));
                }
                str_eq(name, domain)
            },
        },
    };
    if canonical || str_eq(path, "/webhooks/stripe") {
        return None;
    }
    let mut url = String::from_str(app_url);
    match path_and_query {
        Some(pq) => url.append(pq),
        None => url.append("/"),
    }
    Some(url)
}

/// The `alt-svc` header that advertises HTTP/3 on the HTTPS port: `h3=":{port}"; ma=86400`.
pub fn alt_svc(port: u16) -> (v: String)
    ensures
        v@ == "h3=\":"@ + decimal_digits(port as nat) + "\"; ma=86400"@,
{
    let mut v = String::from_str("h3=\":");
    let digits = decimal_string(port as u64);
    v.append(digits.as_str());
    v.append("\"; ma=86400");
    v
}

} // verus!
