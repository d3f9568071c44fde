use lsd::app::admin::{role_change, RoleChange};
use lsd::app::auth::{login_subject, login_url, session_cookie, LoginQuery};
use lsd::app::bulletin::{
    admin_page, edit_scope, editable_by, flyer_values, link_url_field, remove_after_time, total_pages, FlyerForm,
    FlyerFormError, FlyerScope,
};
use lsd::app::contact::contact_subject;
use lsd::app::events::edit::spots_to_delete;
use lsd::app::gallery::GalleryCache;
use lsd::app::lists::{invalid_line_message, parse_pasted_emails};
use lsd::app::posts::{post_url, slug_taken_response};
use lsd::app::{alt_svc, secondary_host_redirect};
use lsd::db::event_flyer::{thumb_data_url, EventFlyer, EventFlyerCache};
use lsd::db::rsvp::ContributionRsvp;
use lsd::db::rsvp_session::{debug_sessions, DebugRsvp, DebugSessionRow, RsvpSession};
use lsd::db::spot::UpdateSpot;
use lsd::db::user::User;
use std::collections::HashMap;

#[test]
fn login_links_and_subject() {
    assert_eq!(login_url("https://x.org", "abc", None), "https://x.org/login?token=abc");
    assert_eq!(login_url("https://x.org", "abc", Some("/events")), "https://x.org/login?token=abc&redirect=/events");
    assert_eq!(login_subject("x.org"), "Login to x.org");
    let q = LoginQuery { redirect: Some("/p/hello".to_string()), token: None };
    assert_eq!(q.redirect(), "/p/hello");
    let q = LoginQuery { redirect: None, token: Some("t".to_string()) };
    assert_eq!(q.redirect(), "/");
}

#[test]
fn session_cookie_header() {
    assert_eq!(
        session_cookie(true, "x.org", 30, "tok".to_string()),
        "session=tok; HttpOnly; SameSite=Strict; Secure; Domain=x.org; Max-Age=2592000"
    );
    assert_eq!(
        session_cookie(false, ".x.org", 1, "tok".to_string()),
        "session=tok; HttpOnly; SameSite=Strict; Domain=x.org; Max-Age=86400"
    );
}

fn session(token: &str, updated_at: i64) -> RsvpSession {
    RsvpSession {
        id: 5,
        event_id: 1,
        token: token.to_string(),
        status: "contribution".to_string(),
        user_id: Some(1),
        user_version: None,
        parent_session_id: None,
        stripe_checkout_session_id: None,
        stripe_client_secret: None,
        stripe_payment_intent_id: None,
        stripe_charge_id: None,
        stripe_refund_id: None,
        created_at: 0,
        updated_at,
    }
}

#[test]
fn rsvp_session_cookies() {
    let s = session("abcd1234", 0);
    assert_eq!(
        s.cookie("/e/night", true, "x.org"),
        "rsvp_session=abcd1234; HttpOnly; SameSite=Strict; Secure; Path=/e/night; Domain=x.org"
    );
    assert_eq!(
        s.child_cookie("/", false, "x.org"),
        "rsvp_child_session=abcd1234; HttpOnly; SameSite=Strict; Path=/; Domain=x.org"
    );
}

#[test]
fn stripe_secret_expiry() {
    let minute = 60_000_000;
    let s = session("t", 1_000 * minute);
    assert!(!s.is_stripe_expired_at(1_000 * minute + 14 * minute - 1));
    assert!(s.is_stripe_expired_at(1_000 * minute + 14 * minute));
    assert_eq!(RsvpSession::STRIPE_EXPIRY_MINUTES, 14);
    assert!(s.is_stripe_expired_at(i64::MAX));
    assert!(s.is_stripe_expired());
    let s = session("t", i64::MAX);
    assert!(!s.is_stripe_expired());
    assert!(!session("t", i64::MAX).is_stripe_expired_at(i64::MIN));
}

fn contribution(name: &str, price: i64) -> ContributionRsvp {
    ContributionRsvp {
        spot_name: name.to_string(),
        first_name: "a".to_string(),
        last_name: "b".to_string(),
        email: "e".to_string(),
        phone: None,
        contribution: price,
    }
}

#[test]
fn line_items_group_by_spot_name() {
    let rsvps = vec![contribution("GA", 20), contribution("VIP", 50), contribution("GA", 30), contribution("GA", 20)];
    let items = session("t", 0).line_items(&rsvps);
    let got: Vec<(String, i64, i64)> = items.iter().map(|i| (i.name.clone(), i.quantity, i.price)).collect();
    assert_eq!(got, vec![("GA".to_string(), 3, 20), ("VIP".to_string(), 1, 50)]);
    assert_eq!(items.iter().map(|i| i.quantity).sum::<i64>(), rsvps.len() as i64);
    assert!(session("t", 0).line_items(&[]).is_empty());
}

fn row(id: i64, updated_at: i64) -> DebugSessionRow {
    DebugSessionRow {
        id,
        token: format!("tok{id}"),
        status: "selection".to_string(),
        created_at: 0,
        updated_at,
        event_title: "Night".to_string(),
        event_slug: "night".to_string(),
        user_email: None,
        parent_token: None,
    }
}

fn debug_rsvp(session_id: i64, name: &str) -> DebugRsvp {
    DebugRsvp { session_id, spot_name: name.to_string(), contribution: 0, email: None }
}

#[test]
fn debug_view_groups_rsvps() {
    let minute = 60_000_000;
    let rows = vec![row(1, 0), row(2, 10 * minute), row(1, 0)];
    let rsvps = vec![debug_rsvp(2, "a"), debug_rsvp(1, "b"), debug_rsvp(9, "c"), debug_rsvp(2, "d")];
    let out = debug_sessions(rows, rsvps, 40 * minute + 5);
    assert_eq!(out.len(), 3);
    assert_eq!(out[0].id, 1);
    assert_eq!(out[0].token, "tok1");
    assert_eq!(out[0].rsvps.iter().map(|r| r.spot_name.as_str()).collect::<Vec<_>>(), vec!["b"]);
    assert_eq!(out[0].expires_in, 31 - 40);
    assert_eq!(out[1].rsvps.iter().map(|r| r.spot_name.as_str()).collect::<Vec<_>>(), vec!["a", "d"]);
    assert_eq!(out[1].expires_in, 31 - 30);
    assert!(out[2].rsvps.is_empty());
    // Minutes are whole and rounded toward zero, also for a future update time.
    let out = debug_sessions(vec![row(3, 90 * minute)], vec![], 0);
    assert_eq!(out[0].expires_in, 31 + 90);
    let out = debug_sessions(vec![row(3, 0)], vec![], minute - 1);
    assert_eq!(out[0].expires_in, 31);
}

#[test]
fn flyer_form_fields() {
    let mut form = FlyerForm::new();
    form.read_text_field("link_url", String::new());
    assert_eq!(form.link_url, None);
    form.read_text_field("link_url", "https://a.b".to_string());
    assert_eq!(form.link_url.as_deref(), Some("https://a.b"));
    form.read_text_field("flyer_name", "Show".to_string());
    form.read_text_field("x", "12".to_string());
    form.read_text_field("y", "-3".to_string());
    form.read_text_field("unknown", "zzz".to_string());
    assert_eq!(form.x, Some(12));
    assert_eq!(form.y, Some(-3));
    form.read_text_field("remove_after_time", "2024-05-06T07:08".to_string());
    assert_eq!(form.remove_after_time, Some(1_714_979_280_000_000));
    form.read_text_field("remove_after_time", "2024-05-06T07:08:09".to_string());
    assert_eq!(form.remove_after_time, Some(1_714_979_289_000_000));
    form.read_text_field("x", "twelve".to_string());
    assert_eq!(form.x, None);
    let v = flyer_values(form.clone(), true, true).unwrap();
    assert_eq!((v.x, v.y), (0, -3));
    assert_eq!(v.flyer_name, "Show");
    assert_eq!(v.link_url.as_deref(), Some("https://a.b"));
    assert_eq!(v.remove_after_time, 1_714_979_289_000_000);
    assert_eq!(flyer_values(form.clone(), true, false).unwrap_err(), FlyerFormError::MissingImage);
    assert!(flyer_values(form, false, false).is_ok());
    let empty = FlyerForm::new();
    assert_eq!(flyer_values(empty.clone(), false, true).unwrap_err(), FlyerFormError::MissingRemoveAfterTime);
    let mut named_only = empty;
    named_only.read_text_field("remove_after_time", "2024-01-01T00:00".to_string());
    assert_eq!(flyer_values(named_only, false, false).unwrap().flyer_name, "");
}

#[test]
fn removal_time_formats() {
    assert_eq!(remove_after_time("1970-01-01T00:01"), Some(60_000_000));
    assert_eq!(remove_after_time("1970-01-01T00:00:01"), Some(1_000_000));
    assert_eq!(remove_after_time("tomorrow"), None);
    assert_eq!(remove_after_time(""), None);
    assert_eq!(link_url_field(String::new()), None);
    assert_eq!(link_url_field("x".to_string()).as_deref(), Some("x"));
}

#[test]
fn flyer_edit_rights_and_pages() {
    assert!(!editable_by(None, true, 1));
    assert!(editable_by(Some(2), true, 1));
    assert!(editable_by(Some(1), false, 1));
    assert!(!editable_by(Some(2), false, 1));
    assert_eq!(edit_scope(true), FlyerScope::Any);
    assert_eq!(edit_scope(false), FlyerScope::Own);
    assert_eq!(admin_page(None), (1, 0));
    assert_eq!(admin_page(Some(0)), (1, 0));
    assert_eq!(admin_page(Some(3)), (3, 50));
    assert_eq!(total_pages(0), 0);
    assert_eq!(total_pages(25), 1);
    assert_eq!(total_pages(26), 2);
}

#[test]
fn pasted_emails() {
    let text = "Ada <ada@x.org>\n\n  grace@y.org , extra\r\nname\tbob@z.org\n";
    assert_eq!(parse_pasted_emails(text).unwrap(), vec!["ada@x.org", "grace@y.org", "bob@z.org"]);
    assert_eq!(parse_pasted_emails("").unwrap(), Vec::<String>::new());
    assert_eq!(parse_pasted_emails("ok@x.org\nno email here").unwrap_err(), "no email here");
    assert_eq!(parse_pasted_emails("bad@").unwrap_err(), "bad@");
    assert_eq!(
        invalid_line_message("oops"),
        "Could not find a valid email address in line: 'oops'"
    );
}

#[test]
fn small_texts() {
    assert_eq!(contact_subject("", "Hi"), "[Anonymous]: Hi");
    assert_eq!(contact_subject("Ada", "Hi"), "[Ada]: Hi");
    assert_eq!(post_url("https://x.org", "hello"), "https://x.org/p/hello");
    let r = slug_taken_response();
    assert_eq!(r.id, None);
    assert_eq!(r.updated_at, None);
    assert_eq!(r.error.as_deref(), Some("A post with that slug already exists."));
    assert_eq!(role_change("add"), Some(RoleChange::Add));
    assert_eq!(role_change("remove"), Some(RoleChange::Remove));
    assert_eq!(role_change("drop"), None);
    assert_eq!(alt_svc(4433), "h3=\":4433\"; ma=86400");
}

#[test]
fn secondary_hosts_redirect() {
    let r = |host: Option<&str>, path: &str, pq: Option<&str>| {
        secondary_host_redirect(host, "x.org", path, pq, "https://x.org")
    };
    assert_eq!(r(None, "/a", Some("/a")), None);
    assert_eq!(r(Some("x.org"), "/a", Some("/a")), None);
    assert_eq!(r(Some("x.org:4433"), "/a", Some("/a")), None);
    assert_eq!(r(Some("www.x.org"), "/webhooks/stripe", Some("/webhooks/stripe")), None);
    assert_eq!(r(Some("www.x.org"), "/a", Some("/a?b=1")).as_deref(), Some("https://x.org/a?b=1"));
    assert_eq!(r(Some("www.x.org"), "/", None).as_deref(), Some("https://x.org/"));
}

fn update_spot(id: Option<i64>) -> UpdateSpot {
    UpdateSpot {
        id,
        name: "s".to_string(),
        description: String::new(),
        qty_total: 1,
        qty_per_person: 1,
        kind: "free".to_string(),
        sort: 0,
        required_contribution: None,
        min_contribution: None,
        max_contribution: None,
        suggested_contribution: None,
        required_notice_hours: None,
    }
}

#[test]
fn only_unreserved_dropped_spots_are_deleted() {
    let mut counts = HashMap::new();
    counts.insert(3, 2);
    counts.insert(4, 0);
    let r = spots_to_delete(&[1, 2, 3, 4], &[update_spot(Some(1)), update_spot(None)], &counts);
    assert_eq!(r, vec![2, 4]);
    assert!(spots_to_delete(&[1], &[update_spot(Some(1))], &counts).is_empty());
}

#[test]
fn flyer_cache_reads_what_was_written() {
    let mut cache = EventFlyerCache::new();
    assert_eq!(cache.generation(), 0);
    assert_eq!(cache.get("night", "image_sm"), None);
    cache.insert("night", "image_sm", vec![1, 2, 3]);
    assert_eq!(cache.get("night", "image_sm"), Some(vec![1, 2, 3]));
    assert_eq!(cache.get("night", "image_thumb"), None);
    assert_eq!(EventFlyer::cache_generation(&cache), 1);
    cache.insert("night", "image_sm", vec![4]);
    assert_eq!(cache.get("night", "image_sm"), Some(vec![4]));
    assert_eq!(cache.generation(), 2);
    cache.remove("day", "image_sm");
    assert_eq!(cache.generation(), 3);
    cache.remove("night", "image_sm");
    assert_eq!(cache.get("night", "image_sm"), None);
    assert_eq!(cache.generation(), 4);
}

#[test]
fn flyer_cache_per_flyer() {
    let mut cache = EventFlyerCache::new();
    cache.store_flyer("a", vec![1], vec![2]);
    assert_eq!(cache.generation(), 2);
    assert_eq!(cache.get("a", "image_thumb"), Some(vec![1]));
    assert_eq!(cache.get("a", "image_sm"), Some(vec![2]));
    cache.copy_flyer("a", "b");
    assert_eq!(cache.generation(), 4);
    cache.copy_flyer("none", "c");
    assert_eq!(cache.generation(), 4);
    assert_eq!(cache.get("c", "image_thumb"), None);
    assert_eq!(cache.get("b", "image_thumb"), Some(vec![1]));
    assert_eq!(cache.get("b", "image_sm"), Some(vec![2]));
    cache.forget_flyer("a");
    assert_eq!(cache.generation(), 6);
    cache.forget_flyer("never-cached");
    assert_eq!(cache.generation(), 8);
    assert_eq!(cache.get("a", "image_thumb"), None);
    assert_eq!(cache.get("a", "image_sm"), None);
    assert_eq!(cache.get("b", "image_sm"), Some(vec![2]));
}

#[test]
fn flyer_sizes_and_thumbnail() {
    assert_eq!(EventFlyer::size_column(None), Some("image_full"));
    assert_eq!(EventFlyer::size_column(Some("thumb")), Some("image_thumb"));
    assert_eq!(EventFlyer::size_column(Some("sm")), Some("image_sm"));
    assert_eq!(EventFlyer::size_column(Some("md")), Some("image_md"));
    assert_eq!(EventFlyer::size_column(Some("lg")), Some("image_lg"));
    assert_eq!(EventFlyer::size_column(Some("xl")), None);
    assert_eq!(thumb_data_url(&[0xff, 0xd8, 0xff, 0x00]), "data:image/jpeg;base64,/9j/AA==");
    assert_eq!(thumb_data_url(b"hello"), "data:image/jpeg;base64,aGVsbG8=");
}

fn viewer() -> Option<User> {
    Some(User {
        id: 1,
        email: "a@b.c".to_string(),
        first_name: None,
        last_name: None,
        phone: None,
        created_at: 0,
        updated_at: 0,
        version: 1,
        roles: vec![],
    })
}

#[test]
fn gallery_cache_by_viewer_and_generation() {
    let mut cache = GalleryCache::new();
    assert_eq!(cache.get(&None, 0), None);
    cache.insert(&None, 3, b"public".to_vec());
    assert_eq!(cache.get(&None, 3), Some(b"public".to_vec()));
    assert_eq!(cache.get(&viewer(), 3), None);
    cache.insert(&viewer(), 3, b"all".to_vec());
    assert_eq!(cache.get(&viewer(), 3), Some(b"all".to_vec()));
    assert_eq!(cache.get(&None, 2), Some(b"public".to_vec()));
    assert_eq!(cache.get(&None, 4), None);
    assert_eq!(cache.get(&viewer(), 4), None);
}
