use lsd::app::events::rsvp::goto::{
    attendees_page, contribution_page, error_conflict, error_not_on_guestlist, guestlist_page, manage_page,
    selection_page,
};
use lsd::app::events::rsvp::parse::{
    attendees_form, parse_phone, selection_form, selection_would_panic, AttendeeForm, ParseAttendeesError, ParseSelectionError, RsvpForm,
};
use lsd::app::events::rsvp::{
    attendees_price, confirmation_subject, contribution_price, manage_emails, manage_step, parse_slug,
    primary_conflict_action, rsvp_entry, selection_prefill, session_deletable, session_route, stripe_secret_step,
    ManageStep, PrimaryConflictAction, RsvpEntry, SessionRoute, StripeSecretStep,
};
use lsd::db::event::Event;
use lsd::db::rsvp::{AttendeeRsvp, ContributionRsvp, EventRsvp};
use lsd::db::rsvp_session::RsvpSession;
use lsd::db::spot::Spot;
use lsd::db::user::User;

fn spot(id: i64, kind: &str) -> Spot {
    Spot {
        id,
        name: format!("spot {id}"),
        description: String::new(),
        qty_total: 10,
        qty_per_person: 10,
        kind: kind.to_string(),
        sort: 0,
        required_contribution: if kind == Spot::FIXED { Some(25) } else { None },
        min_contribution: if kind == Spot::VARIABLE { Some(10) } else { None },
        max_contribution: if kind == Spot::VARIABLE { Some(100) } else { None },
        suggested_contribution: None,
        required_notice_hours: None,
        created_at: 0,
        updated_at: None,
    }
}

fn line(spot_id: i64, qty: i64, contribution: Option<i64>) -> RsvpForm {
    RsvpForm { spot_id, qty, contribution }
}

fn spots() -> Vec<Spot> {
    vec![spot(1, Spot::FREE), spot(2, Spot::FIXED), spot(3, Spot::VARIABLE), spot(4, Spot::WORK)]
}

#[test]
fn selection_yields_copies_per_line() {
    let r = selection_form(&spots(), &[line(2, 2, None), line(3, 1, Some(40)), line(1, 1, Some(999)), line(4, 0, None)])
        .unwrap();
    assert_eq!(
        r,
        vec![
            EventRsvp { rsvp_id: 0, spot_id: 2, contribution: 25 },
            EventRsvp { rsvp_id: 0, spot_id: 2, contribution: 25 },
            EventRsvp { rsvp_id: 0, spot_id: 3, contribution: 40 },
            EventRsvp { rsvp_id: 0, spot_id: 1, contribution: 0 },
        ]
    );
    assert_eq!(selection_form(&spots(), &[]).unwrap(), vec![]);
    assert_eq!(selection_form(&spots(), &[line(1, -3, None)]).unwrap(), vec![]);
}

#[test]
fn selection_refuses_unknown_spot() {
    assert_eq!(
        selection_form(&spots(), &[line(1, 1, None), line(9, 1, None)]),
        Err(ParseSelectionError::UnknownSpot { spot_id: 9 })
    );
}

#[test]
fn selection_refuses_pledge_out_of_range() {
    assert_eq!(
        selection_form(&spots(), &[line(3, 1, Some(5))]),
        Err(ParseSelectionError::SpotRange { spot_id: 3 })
    );
    assert_eq!(
        selection_form(&spots(), &[line(3, 1, Some(101))]),
        Err(ParseSelectionError::SpotRange { spot_id: 3 })
    );
    assert!(selection_form(&spots(), &[line(3, 1, Some(10)), line(3, 1, Some(100))]).is_ok());
}

#[test]
fn accepted_selection_fits_spots_example() {
    let lines = [line(2, 3, None), line(3, 2, Some(55)), line(4, 1, None)];
    let r = selection_form(&spots(), &lines).unwrap();
    assert_eq!(r.len(), 6);
    for rsvp in &r {
        assert_eq!(rsvp.rsvp_id, 0);
        let s = spots().into_iter().find(|s| s.id == rsvp.spot_id).unwrap();
        match s.kind.as_str() {
            "fixed" => assert_eq!(Some(rsvp.contribution), s.required_contribution),
            "variable" => assert!(10 <= rsvp.contribution && rsvp.contribution <= 100),
            _ => assert_eq!(rsvp.contribution, 0),
        }
    }
}

#[test]
fn phone_normalized_to_e164() {
    assert_eq!(parse_phone(None).unwrap(), None);
    assert_eq!(parse_phone(Some("   ".to_string())).unwrap(), None);
    assert_eq!(parse_phone(Some("(555) 123-4567".to_string())).unwrap().as_deref(), Some("+15551234567"));
    assert_eq!(parse_phone(Some("+44 20 7946 0958".to_string())).unwrap().as_deref(), Some("+442079460958"));
    assert_eq!(parse_phone(Some("123456789012345".to_string())).unwrap().as_deref(), Some("+123456789012345"));
    match parse_phone(Some("12345".to_string())) {
        Err(ParseAttendeesError::InvalidPhone { phone }) => assert_eq!(phone, "12345"),
        other => panic!("unexpected {other:?}"),
    }
    assert!(matches!(
        parse_phone(Some("1234567890123456".to_string())),
        Err(ParseAttendeesError::InvalidPhone { .. })
    ));
}

#[test]
fn accepted_phone_is_e164_example() {
    for raw in ["555.123.4567", "1 555 123 4567", "+81-3-1234-5678"] {
        let p = parse_phone(Some(raw.to_string())).unwrap().unwrap();
        assert!(p.starts_with('+'));
        assert!(p[1..].chars().all(|c| c.is_ascii_digit()));
        assert!((12..=16).contains(&p.len()));
    }
}

fn attendee(rsvp_id: i64, email: &str, phone: Option<&str>, is_me: bool) -> AttendeeForm {
    AttendeeForm {
        rsvp_id,
        first_name: "Ada".to_string(),
        last_name: "Lovelace".to_string(),
        email: email.to_string(),
        phone: phone.map(|p| p.to_string()),
        is_me,
    }
}

fn session_rsvps() -> Vec<EventRsvp> {
    vec![
        EventRsvp { rsvp_id: 11, spot_id: 1, contribution: 0 },
        EventRsvp { rsvp_id: 12, spot_id: 1, contribution: 0 },
    ]
}

fn session_user(email: &str) -> Option<User> {
    Some(User {
        id: 1,
        email: email.to_string(),
        first_name: None,
        last_name: None,
        phone: None,
        created_at: 0,
        updated_at: 0,
        version: 1,
        roles: vec![],
    })
}

#[test]
fn attendees_split_primary_and_guests() {
    let (primary, guests) = attendees_form(
        &session_user("me@a.com"),
        &session_rsvps(),
        &[attendee(12, "friend@a.com", Some("555 123 4567"), false), attendee(11, "me@a.com", None, true)],
    )
    .unwrap();
    assert_eq!(primary.rsvp_id, 11);
    assert_eq!(primary.user.email, "me@a.com");
    assert_eq!(primary.user.phone, None);
    assert_eq!(guests.len(), 1);
    assert_eq!(guests[0].rsvp_id, 12);
    assert_eq!(guests[0].user.phone.as_deref(), Some("+15551234567"));
    assert_eq!(guests[0].user.first_name.as_deref(), Some("Ada"));
}

#[test]
fn accepted_attendees_cover_rsvps_example() {
    let rsvps = vec![
        EventRsvp { rsvp_id: 1, spot_id: 1, contribution: 0 },
        EventRsvp { rsvp_id: 2, spot_id: 1, contribution: 0 },
        EventRsvp { rsvp_id: 3, spot_id: 2, contribution: 0 },
    ];
    let (p, gs) = attendees_form(
        &None,
        &rsvps,
        &[attendee(3, "c@a.com", None, false), attendee(1, "a@a.com", None, true), attendee(2, "b@a.com", None, false)],
    )
    .unwrap();
    let mut ids: Vec<i64> = gs.iter().map(|g| g.rsvp_id).collect();
    ids.push(p.rsvp_id);
    ids.sort();
    assert_eq!(ids, vec![1, 2, 3]);
}

#[test]
fn attendees_errors() {
    let rsvps = session_rsvps();
    let user = session_user("me@a.com");
    assert!(matches!(
        attendees_form(&user, &rsvps, &[attendee(99, "me@a.com", None, true)]),
        Err(ParseAttendeesError::UnknownOrDuplicateRsvp { rsvp_id: 99 })
    ));
    assert!(matches!(
        attendees_form(&user, &rsvps, &[attendee(11, "me@a.com", None, true), attendee(11, "x@a.com", None, false)]),
        Err(ParseAttendeesError::UnknownOrDuplicateRsvp { rsvp_id: 11 })
    ));
    let mut nameless = attendee(11, "me@a.com", None, true);
    nameless.last_name = String::new();
    assert!(matches!(attendees_form(&user, &rsvps, &[nameless]), Err(ParseAttendeesError::InvalidName { .. })));
    match attendees_form(&user, &rsvps, &[attendee(11, "me@a.com", None, true), attendee(12, "me@a.com", None, false)]) {
        Err(ParseAttendeesError::DuplicateEmail { email }) => assert_eq!(email, "me@a.com"),
        other => panic!("unexpected {other:?}"),
    }
    match attendees_form(
        &user,
        &rsvps,
        &[attendee(11, "me@a.com", Some("5551234567"), true), attendee(12, "b@a.com", Some("(555) 123-4567"), false)],
    ) {
        Err(ParseAttendeesError::DuplicatePhone { phone }) => assert_eq!(phone, "+15551234567"),
        other => panic!("unexpected {other:?}"),
    }
    assert!(matches!(
        attendees_form(&user, &rsvps, &[attendee(11, "me@a.com", Some("12"), true)]),
        Err(ParseAttendeesError::InvalidPhone { .. })
    ));
    assert!(matches!(
        attendees_form(&user, &rsvps, &[attendee(11, "other@a.com", None, true)]),
        Err(ParseAttendeesError::PrimaryChanged)
    ));
    assert!(matches!(
        attendees_form(&None, &rsvps, &[attendee(11, "a@a.com", None, true), attendee(12, "b@a.com", None, true)]),
        Err(ParseAttendeesError::MultiplePrimary)
    ));
    assert!(matches!(
        attendees_form(&None, &rsvps, &[attendee(11, "a@a.com", None, false), attendee(12, "b@a.com", None, false)]),
        Err(ParseAttendeesError::MissingPrimary)
    ));
    match attendees_form(&user, &rsvps, &[attendee(11, "me@a.com", None, true)]) {
        Err(ParseAttendeesError::MissingAttendee { rsvp_ids }) => assert_eq!(rsvp_ids, vec![12]),
        other => panic!("unexpected {other:?}"),
    }
}

fn the_event() -> Event {
    Event {
        id: 1,
        token: "tok".to_string(),
        kind: Event::INTERNAL.to_string(),
        title: "Night".to_string(),
        slug: "night".to_string(),
        url: None,
        start: 0,
        end: None,
        capacity: 10,
        unlisted: false,
        closed: false,
        guest_list_id: None,
        spots_per_person: None,
        artist_share: 0,
        description_html: None,
        description_updated_at: None,
        invite_subject: None,
        invite_html: None,
        invite_updated_at: None,
        invite_sent_at: None,
        confirmation_subject: None,
        confirmation_html: None,
        confirmation_updated_at: None,
        dayof_subject: None,
        dayof_html: None,
        dayof_updated_at: None,
        dayof_sent_at: None,
        created_at: 0,
        updated_at: 0,
    }
}

fn session(status: &str) -> RsvpSession {
    RsvpSession {
        id: 5,
        event_id: 1,
        token: "abcd1234".to_string(),
        status: status.to_string(),
        user_id: Some(1),
        user_version: None,
        parent_session_id: None,
        stripe_checkout_session_id: None,
        stripe_client_secret: None,
        stripe_payment_intent_id: None,
        stripe_charge_id: None,
        stripe_refund_id: None,
        created_at: 0,
        updated_at: 0,
    }
}

#[test]
fn step_pages() {
    let e = the_event();
    assert_eq!(guestlist_page(&e), "/e/night/rsvp/guestlist");
    assert_eq!(attendees_page(&e), "/e/night/rsvp/attendees");
    assert_eq!(contribution_page(&e), "/e/night/rsvp/contribution");
    assert_eq!(selection_page(&e), "/e/night/rsvp/selection");
    assert_eq!(manage_page(&session("payment_confirmed"), &e), "/e/night/rsvp/manage?reservation=abcd1234");
}

#[test]
fn error_messages() {
    assert_eq!(error_not_on_guestlist(), "Sorry, you're not on the list.");
    assert_eq!(error_conflict("a@b.c", "attendees"), "Someone is currently in the process of RSVPing for a@b.c.");
    assert_eq!(error_conflict("a@b.c", "payment_confirmed"), "Someone has already RSVPed for a@b.c.");
}

#[test]
fn conflicting_primary_session() {
    assert_eq!(primary_conflict_action("selection"), PrimaryConflictAction::Takeover);
    assert_eq!(primary_conflict_action("attendees"), PrimaryConflictAction::Takeover);
    assert_eq!(primary_conflict_action("contribution"), PrimaryConflictAction::Refuse);
    assert_eq!(primary_conflict_action("payment_pending"), PrimaryConflictAction::Refuse);
    assert_eq!(primary_conflict_action("payment_confirmed"), PrimaryConflictAction::Refuse);
}

#[test]
fn manage_steps() {
    assert_eq!(manage_step("selection"), ManageStep::Selection);
    assert_eq!(manage_step("attendees"), ManageStep::Attendees);
    assert_eq!(manage_step("contribution"), ManageStep::HoldPending);
    assert_eq!(manage_step("payment_pending"), ManageStep::Show);
    assert_eq!(manage_step("payment_confirmed"), ManageStep::Show);
}

#[test]
fn manage_page_emails() {
    let m = manage_emails(false, false);
    assert!(m.confirmation && !m.dayof);
    let m = manage_emails(false, true);
    assert!(m.confirmation && m.dayof);
    let m = manage_emails(true, true);
    assert!(!m.confirmation && !m.dayof);
}

#[test]
fn deletable_sessions() {
    assert!(session_deletable("selection"));
    assert!(session_deletable("refund_confirmed"));
    assert!(!session_deletable("payment_pending"));
    assert!(!session_deletable("payment_confirmed"));
}

#[test]
fn session_routes() {
    assert_eq!(session_route("selection", "/e/night/rsvp/selection"), SessionRoute::Proceed);
    assert_eq!(session_route("contribution", "/e/night/rsvp/contribution"), SessionRoute::Proceed);
    assert_eq!(session_route("payment_confirmed", "/e/night/rsvp/attendees"), SessionRoute::Manage);
    assert_eq!(session_route("payment_pending", "/e/night/rsvp/manage"), SessionRoute::Proceed);
}

#[test]
fn stripe_checkout_steps() {
    assert_eq!(stripe_secret_step(0, true, true), StripeSecretStep::Free);
    assert_eq!(stripe_secret_step(20, false, false), StripeSecretStep::Create);
    assert_eq!(stripe_secret_step(20, true, true), StripeSecretStep::Replace);
    assert_eq!(stripe_secret_step(20, true, false), StripeSecretStep::Keep);
}

#[test]
fn slug_from_path() {
    assert_eq!(parse_slug("/e/night/rsvp").as_deref(), Some("night"));
    assert_eq!(parse_slug("//e/night/rsvp/manage").as_deref(), Some("night"));
    assert_eq!(parse_slug("/e/night"), None);
    assert_eq!(parse_slug("/x/night/rsvp"), None);
    assert_eq!(parse_slug(""), None);
}

#[test]
fn prices_sum_pledges() {
    let c = |n: i64| ContributionRsvp {
        spot_name: "s".to_string(),
        first_name: "a".to_string(),
        last_name: "b".to_string(),
        email: "e".to_string(),
        phone: None,
        contribution: n,
    };
    assert_eq!(contribution_price(&[c(10), c(25), c(0)]), 35);
    assert_eq!(contribution_price(&[]), 0);
    let a = |n: i64| AttendeeRsvp {
        rsvp_id: 1,
        user_id: None,
        spot_name: "s".to_string(),
        first_name: None,
        last_name: None,
        email: None,
        phone: None,
        contribution: n,
    };
    assert_eq!(attendees_price(&[a(5), a(7)]), 12);
}

#[test]
fn confirmation_subjects() {
    let mut e = the_event();
    assert_eq!(confirmation_subject(&e), "Confirmation for Night");
    e.confirmation_subject = Some("See you there".to_string());
    assert_eq!(confirmation_subject(&e), "See you there");
}

#[test]
fn selection_panic_cases() {
    let mut broken = spots();
    broken[1].required_contribution = None;
    broken.push(spot(5, "mystery"));
    assert!(selection_would_panic(&broken, &[line(2, 1, None)]));
    assert!(selection_would_panic(&broken, &[line(5, 1, None)]));
    assert!(selection_would_panic(&spots(), &[line(3, 1, None)]));
    // A refusal comes first and stops the reading.
    assert!(!selection_would_panic(&broken, &[line(9, 1, None), line(2, 1, None)]));
    assert!(!selection_would_panic(&spots(), &[line(1, 2, None), line(3, 1, Some(50))]));
    assert!(!selection_would_panic(&spots(), &[]));
}

#[test]
fn rsvp_button_entry() {
    assert_eq!(rsvp_entry(false, None, Some(false)), RsvpEntry::Selection);
    assert_eq!(rsvp_entry(true, Some(true), None), RsvpEntry::Selection);
    assert_eq!(rsvp_entry(true, Some(false), Some(true)), RsvpEntry::Guestlist);
    assert_eq!(rsvp_entry(true, None, Some(true)), RsvpEntry::Selection);
    assert_eq!(rsvp_entry(true, None, Some(false)), RsvpEntry::NotOnList);
    assert_eq!(rsvp_entry(true, None, None), RsvpEntry::Guestlist);
}

#[test]
fn selection_prefill_counts_and_last_pledge() {
    let r = |spot_id: i64, contribution: i64| EventRsvp { rsvp_id: 1, spot_id, contribution };
    let p = selection_prefill(&[r(1, 10), r(2, 0), r(1, 30), r(1, 20)]);
    assert_eq!(p.qtys.len(), 2);
    assert_eq!(p.qtys[&1], 3);
    assert_eq!(p.qtys[&2], 1);
    assert_eq!(p.contributions[&1], 20);
    assert_eq!(p.contributions[&2], 0);
    let p = selection_prefill(&[]);
    assert!(p.qtys.is_empty() && p.contributions.is_empty());
}

#[test]
fn phone_normalization_is_idempotent() {
    for raw in ["(555) 123-4567", "+44 20 7946 0958", "1 555 123 4567", "123456789012345"] {
        let p = parse_phone(Some(raw.to_string())).unwrap().unwrap();
        assert_eq!(parse_phone(Some(p.clone())).unwrap(), Some(p));
    }
}
