use lsd::app::coupons::{code_conflicts, code_taken_message};
use lsd::db::coupon::{Coupon, CouponCheck, CouponUses, CouponWithUses};
use lsd::db::email::{unsent_emails, Email};
use lsd::db::email_queue::EmailBatch;
use lsd::db::promo::Promo;
use lsd::db::rsvp::{AdminAttendeesRsvp, EventRsvp};
use lsd::db::token::{format_token, new_token};
use lsd::db::user::{normalize_name, parse_roles, search_params, CreateUser, UpdateUser, User, UserSearchBy};

fn user(roles: &[&str]) -> User {
    User {
        id: 1,
        email: "a@b.c".to_string(),
        first_name: Some("Ada".to_string()),
        last_name: None,
        phone: Some("+15550000000".to_string()),
        created_at: 100,
        updated_at: 100,
        version: 1,
        roles: roles.iter().map(|r| r.to_string()).collect(),
    }
}

#[test]
fn names_are_capitalized_unless_cased() {
    let n = |s: &str| normalize_name(&Some(s.to_string()));
    assert_eq!(n("ada lovelace").as_deref(), Some("Ada Lovelace"));
    assert_eq!(n("  ada   lovelace  ").as_deref(), Some("Ada Lovelace"));
    assert_eq!(n("  McDonald ").as_deref(), Some("McDonald"));
    assert_eq!(n("élodie").as_deref(), Some("Élodie"));
    assert_eq!(n("ßa").as_deref(), Some("SSa"));
    assert_eq!(n("   ").as_deref(), Some(""));
    assert_eq!(normalize_name(&None), None);
}

#[test]
fn roles_are_split_on_commas() {
    assert_eq!(parse_roles("admin,writer"), vec!["admin", "writer"]);
    assert_eq!(parse_roles(""), Vec::<String>::new());
    assert_eq!(parse_roles("admin,,writer,"), vec!["admin", "writer"]);
}

#[test]
fn admin_holds_every_role() {
    assert!(user(&["admin"]).has_role("writer"));
    assert!(user(&["writer"]).has_role("writer"));
    assert!(!user(&["writer"]).has_role("admin"));
    assert!(!user(&[]).has_role("writer"));
    assert!(user(&["writer"]).has_staff_role());
    assert!(user(&["admin"]).has_staff_role());
    assert!(!user(&["guest"]).has_staff_role());
    assert_eq!(User::ADMIN, "admin");
    assert_eq!(User::WRITER, "writer");
}

#[test]
fn rsvp_update_keeps_populated_fields() {
    let u = user(&[]);
    let info = CreateUser {
        email: "new@b.c".to_string(),
        first_name: Some("Grace".to_string()),
        last_name: Some("Hopper".to_string()),
        phone: None,
    };
    // The user existed before the session: populated fields stay.
    let up = u.rsvp_update(&info, 200);
    assert_eq!(up.email, "new@b.c");
    assert_eq!(up.first_name.as_deref(), Some("Ada"));
    assert_eq!(up.last_name.as_deref(), Some("Hopper"));
    assert_eq!(up.phone.as_deref(), Some("+15550000000"));
    // The user was created in this session: everything is overwritten.
    let up = u.rsvp_update(&info, 100);
    assert_eq!(up.first_name.as_deref(), Some("Grace"));
    assert_eq!(up.phone, None);
}

#[test]
fn update_noop_compares_normalized_names() {
    let mut u = user(&[]);
    u.last_name = Some("Lovelace".to_string());
    let info = UpdateUser {
        email: "x".to_string(),
        first_name: Some("ada".to_string()),
        last_name: Some("lovelace".to_string()),
        phone: Some("+15550000000".to_string()),
    };
    assert!(u.update_is_noop(&info));
    let info = UpdateUser { phone: None, ..info };
    assert!(!u.update_is_noop(&info));
}

#[test]
fn search_params_escape_and_pick_field() {
    assert!(search_params("  ab ", None).is_none());
    let p = search_params(" 50%_off ", Some(UserSearchBy::Email)).unwrap();
    assert_eq!(p.query, "50\\%\\_off");
    assert_eq!(p.prefix, "50\\%\\_off%");
    assert_eq!(p.contains, "%50\\%\\_off%");
    assert_eq!(p.by, "email");
    assert_eq!(search_params("ada love", Some(UserSearchBy::FirstName)).unwrap().by, "full");
    assert_eq!(search_params("ada", Some(UserSearchBy::FirstName)).unwrap().by, "first");
    assert_eq!(search_params("ada", Some(UserSearchBy::LastName)).unwrap().by, "last");
    assert_eq!(search_params("ada", None).unwrap().by, "any");
    // Three bytes, not three characters.
    assert!(search_params("é_", None).is_some());
    assert!(search_params("é", None).is_none());
}

#[test]
fn tokens_are_zero_padded_hex() {
    assert_eq!(format_token(0), "00000000");
    assert_eq!(format_token(255), "000000ff");
    assert_eq!(format_token(0xdeadbeef), "deadbeef");
    assert_eq!(format_token(0x1_0000_0000), "100000000");
    assert_eq!(format_token(u64::MAX), "ffffffffffffffff");
    for n in [0u64, 1, 77, 0xabcdef, u64::MAX] {
        assert_eq!(format_token(n), format!("{:08x}", n));
    }
}

#[test]
fn token_shape_example() {
    for _ in 0..16 {
        let t = new_token();
        assert!(t.len() >= 8 && t.len() <= 16);
        assert!(t.chars().all(|c| c.is_ascii_digit() || ('a'..='f').contains(&c)));
        assert_eq!(format_token(u64::from_str_radix(&t, 16).unwrap()), t);
    }
}

fn coupon(kind: &str) -> Coupon {
    Coupon {
        id: 1,
        creator_user_id: 1,
        event_id: None,
        code: "FREE".to_string(),
        description: String::new(),
        expires_at: None,
        kind: kind.to_string(),
        percent_off: None,
        dollars_off: None,
        max_uses: None,
        max_uses_per_user: None,
        max_uses_per_event: None,
        created_at: 0,
        updated_at: 0,
    }
}

fn paid(n: i64) -> EventRsvp {
    EventRsvp { rsvp_id: 0, spot_id: 1, contribution: n }
}

fn none_used() -> CouponUses {
    CouponUses { total: 0, by_user: 0 }
}

fn available(c: &CouponCheck) -> Option<i64> {
    match c {
        CouponCheck::Usable { available, .. } => Some(*available),
        _ => None,
    }
}

#[test]
fn coupon_check_outcomes() {
    let rsvps = vec![paid(20), paid(0), paid(20)];
    assert!(matches!(Coupon::check_with(None, 0, 1, true, none_used(), &rsvps), CouponCheck::Invalid));
    let mut c = coupon(Coupon::SPOT);
    c.expires_at = Some(50);
    assert!(matches!(Coupon::check_with(Some(c.clone()), 50, 1, true, none_used(), &rsvps), CouponCheck::Expired));
    assert_eq!(available(&Coupon::check_with(Some(c.clone()), 49, 1, true, none_used(), &rsvps)), Some(2));
    c.expires_at = None;
    c.event_id = Some(2);
    assert!(matches!(Coupon::check_with(Some(c.clone()), 0, 1, true, none_used(), &rsvps), CouponCheck::Invalid));
    c.event_id = Some(1);
    assert!(matches!(Coupon::check_with(Some(c.clone()), 0, 1, false, none_used(), &rsvps), CouponCheck::Invalid));
    c.max_uses_per_event = Some(1);
    assert_eq!(available(&Coupon::check_with(Some(c.clone()), 0, 1, true, none_used(), &rsvps)), Some(1));
    c.max_uses_per_event = None;
    c.max_uses = Some(5);
    let past = CouponUses { total: 5, by_user: 0 };
    assert!(matches!(Coupon::check_with(Some(c.clone()), 0, 1, true, past, &rsvps), CouponCheck::Exhausted));
    c.max_uses = None;
    c.max_uses_per_user = Some(3);
    let past = CouponUses { total: 0, by_user: 2 };
    assert_eq!(available(&Coupon::check_with(Some(c.clone()), 0, 1, true, past, &rsvps)), Some(1));
    // A spot coupon on free RSVPs only has nothing to apply to.
    assert!(matches!(
        Coupon::check_with(Some(coupon(Coupon::SPOT)), 0, 1, true, none_used(), &[paid(0)]),
        CouponCheck::Exhausted
    ));
    assert_eq!(available(&Coupon::check_with(Some(coupon(Coupon::FIXED)), 0, 1, true, none_used(), &rsvps)), Some(1));
    assert_eq!(available(&Coupon::check_with(Some(coupon(Coupon::PERCENT)), 0, 1, true, none_used(), &[])), Some(1));
}

#[test]
fn usable_coupon_within_limits_example() {
    let rsvps = vec![paid(10), paid(10), paid(10), paid(10)];
    let mut c = coupon(Coupon::SPOT);
    c.max_uses = Some(10);
    c.max_uses_per_user = Some(4);
    let past = CouponUses { total: 7, by_user: 1 };
    let n = available(&Coupon::check_with(Some(c), 0, 1, true, past, &rsvps)).unwrap();
    assert!(n >= 1 && n <= 4 && n <= 10 - 7 && n <= 4 - 1);
    assert_eq!(n, 3);
}

#[test]
fn coupon_messages() {
    assert_eq!(CouponCheck::Expired.error_message(), Some("This code has expired."));
    assert_eq!(CouponCheck::Exhausted.error_message(), Some("This code has already been used up."));
    assert_eq!(CouponCheck::Invalid.error_message(), Some("Invalid code."));
    assert_eq!(CouponCheck::Usable { coupon: coupon(Coupon::FIXED), available: 1 }.error_message(), None);
}

#[test]
fn coupon_expiry() {
    let mut c = coupon(Coupon::FIXED);
    assert!(!c.is_expired_at(i64::MAX));
    assert!(!c.is_expired());
    c.expires_at = Some(10);
    assert!(c.is_expired_at(10));
    assert!(!c.is_expired_at(9));
    assert!(c.is_expired());
    let w = CouponWithUses {
        id: 1,
        creator: "x".to_string(),
        code: "C".to_string(),
        kind: "fixed".to_string(),
        description: String::new(),
        event_title: None,
        expires_at: Some(10),
        percent_off: None,
        dollars_off: Some(5),
        max_uses: None,
        uses: 0,
        user_count: 0,
        first_user: None,
    };
    assert!(w.is_expired_at(11));
    assert!(!w.is_expired_at(9));
    assert!(w.is_expired());
}

#[test]
fn promo_validity() {
    let mut p = Promo { id: 1, code: "P".to_string(), user_id: None, amount: 5, uses_remaining: None, created_at: 0, expires_at: None };
    assert!(p.is_valid_at(0));
    assert!(p.is_valid());
    p.expires_at = Some(10);
    assert!(p.is_valid_at(10));
    assert!(!p.is_valid_at(11));
    assert!(!p.is_valid());
    p.expires_at = None;
    p.uses_remaining = Some(0);
    assert!(!p.is_valid_at(0));
    p.uses_remaining = Some(1);
    assert!(p.is_valid_at(0));
}

fn email(id: i64, sent: bool) -> Email {
    Email {
        id,
        kind: Email::POST.to_string(),
        user_id: 1,
        user_version: 1,
        address: format!("u{id}@b.c"),
        post_id: Some(1),
        list_id: Some(1),
        event_id: None,
        notification_id: None,
        error: None,
        created_at: 0,
        sent_at: if sent { Some(1) } else { None },
        opened_at: None,
    }
}

#[test]
fn only_unsent_emails_go_out() {
    let r = unsent_emails(&[email(1, false), email(2, true), email(3, false)]);
    assert_eq!(r, vec![(1, "u1@b.c".to_string()), (3, "u3@b.c".to_string())]);
    assert!(unsent_emails(&[]).is_empty());
}

#[test]
fn batch_completion() {
    let b = EmailBatch { id: 1, size: 5, sent: 3, errored: 2, created_at: 0, updated_at: 0 };
    assert!(b.is_complete());
    let b = EmailBatch { errored: 1, ..b };
    assert!(!b.is_complete());
}

#[test]
fn attendee_status_labels() {
    let row = |status: &str| AdminAttendeesRsvp {
        user_id: 1,
        first_name: "a".to_string(),
        last_name: "b".to_string(),
        email: "e".to_string(),
        guest_of: None,
        spot_name: None,
        contribution: 0,
        is_manual: false,
        created_at: 0,
        session_id: 1,
        session_token: None,
        status: status.to_string(),
        note: None,
    };
    assert_eq!(row("payment_confirmed").status_label(), "Confirmed");
    assert_eq!(row("payment_pending").status_label(), "Unpaid");
    assert_eq!(row("refund_pending").status_label(), "Refunded");
    assert_eq!(row("refund_confirmed").status_label(), "Refunded");
    assert_eq!(row("manual").status_label(), "Manual");
    assert_eq!(row("selection").status_label(), "");
    assert!(row("refund_pending").is_refunded());
    assert!(!row("payment_confirmed").is_refunded());
}

#[test]
fn coupon_codes_stay_unique() {
    assert!(!code_conflicts(None, 0));
    assert!(code_conflicts(Some(3), 0));
    assert!(!code_conflicts(Some(3), 3));
    assert!(code_conflicts(Some(3), 4));
    assert_eq!(code_taken_message("FREE"), "Code 'FREE' already exists.");
}

#[test]
fn cased_names_normalize_once() {
    for raw in ["  McDonald ", "de La Cruz", " O'Neil\t"] {
        let once = normalize_name(&Some(raw.to_string()));
        assert_eq!(once.as_deref(), Some(raw.trim()));
        assert_eq!(normalize_name(&once), once);
    }
}

#[test]
fn normalizing_a_name_twice_changes_nothing() {
    for raw in ["ada lovelace", "  ada   lovelace  ", "élodie", "ßa", "   ", "", "McDonald ", "123 main"] {
        let once = normalize_name(&Some(raw.to_string()));
        assert!(once.is_some());
        assert_eq!(normalize_name(&once), once);
    }
    assert_eq!(normalize_name(&normalize_name(&None)), None);
}
