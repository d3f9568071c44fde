use lsd::app::events::edit::{invite_guest_list, InviteRefusal};
use lsd::app::events::rsvp::validate::{no_conflicts, registration_open, within_limits, Conflict};
use lsd::db::event::{Event, EventLimits, EventWithStats};
use lsd::db::rsvp::{count_for_spot, EventRsvp};
use lsd::db::spot::{sort_values, spot_contributions, Spot};
use lsd::db::user::CreateUser;
use lsd::db::rsvp::UserRsvp;
use std::collections::HashMap;

fn event(capacity: i64, spots_per_person: Option<i64>) -> Event {
    Event {
        id: 1,
        token: "tok".to_string(),
        kind: Event::INTERNAL.to_string(),
        title: "Night".to_string(),
        slug: "night".to_string(),
        url: None,
        start: 100,
        end: Some(200),
        capacity,
        unlisted: false,
        closed: false,
        guest_list_id: None,
        spots_per_person,
        artist_share: 15,
        description_html: None,
        description_updated_at: None,
        invite_subject: None,
        invite_html: None,
        invite_updated_at: None,
        invite_sent_at: None,
        confirmation_subject: None,
        confirmation_html: None,
        confirmation_updated_at: None,
        dayof_subject: None,
        dayof_html: None,
        dayof_updated_at: None,
        dayof_sent_at: None,
        created_at: 0,
        updated_at: 0,
    }
}

fn spot(id: i64, kind: &str, qty_total: i64, qty_per_person: i64) -> Spot {
    Spot {
        id,
        name: format!("spot {id}"),
        description: String::new(),
        qty_total,
        qty_per_person,
        kind: kind.to_string(),
        sort: 0,
        required_contribution: if kind == Spot::FIXED { Some(20) } else { None },
        min_contribution: if kind == Spot::VARIABLE { Some(10) } else { None },
        max_contribution: if kind == Spot::VARIABLE { Some(100) } else { None },
        suggested_contribution: None,
        required_notice_hours: None,
        created_at: 0,
        updated_at: None,
    }
}

fn rsvp(spot_id: i64, contribution: i64) -> EventRsvp {
    EventRsvp { rsvp_id: 0, spot_id, contribution }
}

#[test]
fn external_kind() {
    let mut e = event(10, None);
    assert!(!e.is_external());
    e.kind = Event::EXTERNAL.to_string();
    assert!(e.is_external());
    let stats = EventWithStats {
        id: 1,
        token: "t".to_string(),
        kind: "external".to_string(),
        title: "x".to_string(),
        slug: "x".to_string(),
        url: None,
        start: 0,
        guest_list_id: None,
        capacity: 0,
        rsvp_count: 0,
        total_contributions: 0,
    };
    assert!(stats.is_external());
}

#[test]
fn upcoming_until_the_end() {
    let mut e = event(10, None);
    assert!(e.is_upcoming(50));
    assert!(e.is_upcoming(150));
    assert!(e.is_upcoming(200));
    assert!(!e.is_upcoming(201));
    e.end = None;
    assert!(e.is_upcoming(100));
    assert!(!e.is_upcoming(101));
}

#[test]
fn over_at_end_or_day_end() {
    let mut e = event(10, None);
    assert!(!e.is_over_at(199, 1000));
    assert!(e.is_over_at(200, 1000));
    e.end = None;
    assert!(!e.is_over_at(999, 1000));
    assert!(e.is_over_at(1000, 1000));
}

#[test]
fn registration_follows_closed_and_end() {
    let mut e = event(10, None);
    assert!(e.registration_open_at(150, 1000));
    assert!(!e.registration_open_at(200, 1000));
    e.closed = true;
    assert!(!e.registration_open_at(150, 1000));
    assert!(!e.registration_open("America/New_York"));
    assert!(!e.registration_open("No/Such_Zone"));
    assert_eq!(e.registration_open_checked("No/Such_Zone"), Some(false));
    assert!(!registration_open(&e));
    e.closed = false;
    e.end = Some(i64::MAX);
    assert!(e.registration_open("America/New_York"));
    assert!(registration_open(&e));
    assert!(!e.is_over("America/New_York"));
    e.end = Some(200);
    assert!(e.is_over("America/New_York"));
    assert_eq!(e.registration_open_checked("America/New_York"), Some(false));
}

#[test]
fn start_day_ends_at_local_midnight() {
    let mut e = event(10, None);
    e.end = None;
    // 23:30 on May 6 in New York (EDT) ends at midnight, 04:00 UTC on May 7.
    e.start = 1_715_052_600_000_000;
    assert_eq!(e.start_day_end("America/New_York"), Some(1_715_054_400_000_000));
    assert_eq!(e.over_cutoff("America/New_York"), Some(1_715_054_400_000_000));
    // Noon UTC on January 10 is 07:00 EST; the day ends at 05:00 UTC on January 11.
    e.start = 1_704_888_000_000_000;
    assert_eq!(e.start_day_end("America/New_York"), Some(1_704_949_200_000_000));
    assert_eq!(e.start_day_end("UTC"), Some(1_704_931_200_000_000));
    assert_eq!(e.start_day_end("No/Such_Zone"), None);
    assert_eq!(e.over_cutoff("No/Such_Zone"), None);
    assert_eq!(e.registration_open_checked("No/Such_Zone"), None);
    assert!(e.is_over("America/New_York"));
    // An event in the year 3000 is not over.
    e.start = 32_503_680_000_000_000;
    assert!(!e.is_over("America/New_York"));
    assert_eq!(e.registration_open_checked("America/New_York"), Some(true));
    e.end = Some(5);
    assert_eq!(e.over_cutoff("No/Such_Zone"), Some(5));
}

#[test]
fn start_day_end_crosses_years_and_leap_days() {
    let mut e = event(10, None);
    e.end = None;
    // Noon on December 31 ends at midnight on January 1.
    e.start = 1_704_024_000_000_000;
    assert_eq!(e.start_day_end("UTC"), Some(1_704_067_200_000_000));
    // February 28 of a leap year ends at the start of February 29.
    e.start = 1_709_121_600_000_000;
    assert_eq!(e.start_day_end("UTC"), Some(1_709_164_800_000_000));
    // February 28 of a common year ends at the start of March 1.
    e.start = 1_677_585_600_000_000;
    assert_eq!(e.start_day_end("UTC"), Some(1_677_628_800_000_000));
    // Instants at the ends of the i64 range have no local day and no cutoff.
    e.start = i64::MAX;
    assert_eq!(e.start_day_end("Asia/Tokyo"), None);
    e.start = i64::MIN;
    assert_eq!(e.start_day_end("America/New_York"), None);
    // The last instant chrono holds has no local date east of UTC, and the first none west of it.
    e.start = 8_210_266_876_799_999_999;
    assert_eq!(e.start_day_end("Asia/Tokyo"), None);
    e.start = -8_334_601_315_200_000_000;
    assert_eq!(e.start_day_end("America/New_York"), None);
    // Noon on the last day chrono holds has no day after it to end on.
    e.start = 8_210_266_833_600_000_000;
    assert_eq!(e.start_day_end("UTC"), None);
    assert_eq!(e.registration_open_checked("UTC"), None);
}

#[test]
fn artist_share_rounds_up_to_the_artist() {
    let e = event(10, None);
    assert_eq!(e.artist_share(1000), 150);
    assert_eq!(e.artist_share(1001), 151);
    assert_eq!(e.artist_share(0), 0);
}

#[test]
fn count_for_spot_counts_matching() {
    let rsvps = vec![rsvp(1, 0), rsvp(2, 0), rsvp(1, 5)];
    assert_eq!(count_for_spot(&rsvps, 1), 2);
    assert_eq!(count_for_spot(&rsvps, 3), 0);
}

#[test]
fn compute_limits_example() {
    let e = event(10, Some(4));
    let spots = vec![spot(1, Spot::FREE, 5, 2), spot(2, Spot::FIXED, 3, 3)];
    let all = vec![rsvp(1, 0), rsvp(1, 0), rsvp(2, 20)];
    let user = vec![rsvp(1, 0)];
    let limits = e.compute_limits(&spots, &all, &user, 1);
    // capacity 10-3-1 = 6, person 4-1 = 3, spots: min(5-2, 2-1) = 1 and min(3-1, 3-0) = 2
    assert_eq!(limits.total_limit, 3);
    assert_eq!(limits.spot_limits.get(&1), Some(&1));
    assert_eq!(limits.spot_limits.get(&2), Some(&2));
    assert_eq!(limits.spot_limits.len(), 2);
}

#[test]
fn compute_limits_full_event() {
    let e = event(3, None);
    let spots = vec![spot(1, Spot::FREE, 10, 10)];
    let all = vec![rsvp(1, 0), rsvp(1, 0), rsvp(1, 0)];
    let limits = e.compute_limits(&spots, &all, &[], 2);
    assert_eq!(limits.total_limit, 0);
    assert_eq!(limits.spot_limits.get(&1), Some(&7));
}

#[test]
fn limits_shrink_as_event_fills_example() {
    let e = event(10, Some(4));
    let spots = vec![spot(1, Spot::FREE, 5, 5), spot(2, Spot::FREE, 5, 5)];
    let mut all = vec![rsvp(1, 0)];
    let before = e.compute_limits(&spots, &all, &[], 0);
    all.push(rsvp(2, 0));
    let after = e.compute_limits(&spots, &all, &[], 0);
    assert!(after.total_limit <= before.total_limit);
    for id in [1, 2] {
        assert!(after.spot_limits[&id] <= before.spot_limits[&id]);
    }
    assert_eq!(after.spot_limits[&2], 4);
}

#[test]
fn within_limits_checks_total_and_spots() {
    let mut spot_limits = HashMap::new();
    spot_limits.insert(1, 2);
    spot_limits.insert(2, 1);
    let limits = EventLimits { total_limit: 3, spot_limits };
    assert!(within_limits(&limits, &[rsvp(1, 0), rsvp(1, 0), rsvp(2, 0)]));
    assert!(!within_limits(&limits, &[rsvp(2, 0), rsvp(2, 0)]));
    assert!(!within_limits(&limits, &[rsvp(1, 0), rsvp(1, 0), rsvp(2, 0), rsvp(1, 0)]));
    // A spot without a limit takes nothing.
    assert!(!within_limits(&limits, &[rsvp(9, 0)]));
    assert!(within_limits(&limits, &[]));
}

#[test]
fn limits_never_overbook_example() {
    let e = event(4, Some(3));
    let spots = vec![spot(1, Spot::FREE, 2, 2), spot(2, Spot::FREE, 5, 1)];
    let all = vec![rsvp(1, 0)];
    let limits = e.compute_limits(&spots, &all, &[], 0);
    let choice = vec![rsvp(1, 0), rsvp(2, 0)];
    assert!(within_limits(&limits, &choice));
    assert!(!within_limits(&limits, &[rsvp(1, 0), rsvp(1, 0)]));
    assert!(!within_limits(&limits, &[rsvp(2, 0), rsvp(2, 0)]));
}

fn user_rsvp(email: &str, status: &str) -> UserRsvp {
    UserRsvp {
        status: status.to_string(),
        email: email.to_string(),
        attendee_user_id: 7,
        owner_user_id: Some(7),
        owner_first_name: None,
        owner_last_name: None,
    }
}

fn create_user(email: &str) -> CreateUser {
    CreateUser { email: email.to_string(), first_name: None, last_name: None, phone: None }
}

#[test]
fn no_conflicts_reports_first_match() {
    let others = vec![user_rsvp("x@a.com", "payment_confirmed"), user_rsvp("g@a.com", "selection")];
    let primary = create_user("p@a.com");
    let guests = vec![create_user("g@a.com")];
    match no_conflicts(&others, &primary, &guests) {
        Some(Conflict::Guest { email, status }) => {
            assert_eq!(email, "g@a.com");
            assert_eq!(status, "selection");
        }
        other => panic!("unexpected {other:?}"),
    }
    let others = vec![user_rsvp("g@a.com", "attendees"), user_rsvp("p@a.com", "payment_pending")];
    let guests = vec![create_user("g@a.com")];
    match no_conflicts(&others, &create_user("g@a.com"), &guests) {
        Some(Conflict::Primary { email, status }) => {
            assert_eq!(email, "g@a.com");
            assert_eq!(status, "attendees");
        }
        other => panic!("unexpected {other:?}"),
    }
    assert!(no_conflicts(&others, &create_user("new@a.com"), &[]).is_none());
}

#[test]
fn stats_of_variable_spots() {
    let spots = vec![spot(1, Spot::VARIABLE, 10, 10), spot(2, Spot::FIXED, 10, 10), spot(3, Spot::VARIABLE, 10, 10)];
    let rsvps = vec![rsvp(1, 30), rsvp(2, 20), rsvp(1, 10), rsvp(1, 20), rsvp(1, 40), rsvp(3, 5)];
    let stats = Spot::stats(&spots, &rsvps).stats;
    assert_eq!(stats.len(), 2);
    let s1: Vec<(String, i64)> = stats[&1].iter().map(|s| (s.name.clone(), s.value)).collect();
    assert_eq!(s1, vec![("Median".to_string(), 25), ("Max".to_string(), 40)]);
    let s3: Vec<(String, i64)> = stats[&3].iter().map(|s| (s.name.clone(), s.value)).collect();
    assert_eq!(s3, vec![("Median".to_string(), 5)]);
    assert!(!stats.contains_key(&2));
}

#[test]
fn median_rounds_toward_zero() {
    let spots = vec![spot(1, Spot::VARIABLE, 10, 10)];
    let stats = Spot::stats(&spots, &[rsvp(1, -3), rsvp(1, -2)]).stats;
    let s: Vec<(String, i64)> = stats[&1].iter().map(|s| (s.name.clone(), s.value)).collect();
    assert_eq!(s, vec![("Median".to_string(), -2)]);
    let stats = Spot::stats(&spots, &[rsvp(1, 1), rsvp(1, 2)]).stats;
    let s: Vec<(String, i64)> = stats[&1].iter().map(|s| (s.name.clone(), s.value)).collect();
    assert_eq!(s, vec![("Median".to_string(), 1), ("Max".to_string(), 2)]);
}

#[test]
fn median_between_extremes_example() {
    let values = vec![7, -4, 19, 3, 3];
    let sorted = sort_values(&values);
    assert_eq!(sorted, vec![-4, 3, 3, 7, 19]);
    let spots = vec![spot(1, Spot::VARIABLE, 10, 10)];
    let rsvps: Vec<EventRsvp> = values.iter().map(|v| rsvp(1, *v)).collect();
    let stats = Spot::stats(&spots, &rsvps).stats;
    let median = stats[&1][0].value;
    assert!(sorted[0] <= median && median <= sorted[sorted.len() - 1]);
    assert_eq!(median, 3);
}

#[test]
fn spot_contributions_in_order() {
    let rsvps = vec![rsvp(1, 30), rsvp(2, 20), rsvp(1, 10)];
    assert_eq!(spot_contributions(&rsvps, 1), vec![30, 10]);
    assert_eq!(spot_contributions(&rsvps, 5), Vec::<i64>::new());
    assert_eq!(sort_values(&vec![]), Vec::<i64>::new());
}

#[test]
fn stats_ignore_order_and_other_spots() {
    let spots = vec![spot(1, Spot::VARIABLE, 10, 10), spot(2, Spot::FIXED, 10, 10)];
    let rsvps = vec![rsvp(1, 30), rsvp(1, 10), rsvp(2, 20), rsvp(1, 20)];
    let reordered = vec![rsvp(1, 20), rsvp(2, 20), rsvp(1, 30), rsvp(1, 10)];
    let mut more = rsvps.clone();
    more.push(rsvp(2, 99));
    more.push(rsvp(7, 1));
    let view = |r: &[EventRsvp]| {
        let mut v: Vec<(i64, Vec<(String, i64)>)> = Spot::stats(&spots, r)
            .stats
            .into_iter()
            .map(|(k, s)| (k, s.into_iter().map(|s| (s.name, s.value)).collect()))
            .collect();
        v.sort();
        v
    };
    assert_eq!(view(&reordered), view(&rsvps));
    assert_eq!(view(&more), view(&rsvps));
}

#[test]
fn limits_shrink_with_more_rsvps_example() {
    let e = event(10, Some(5));
    let spots = vec![spot(1, Spot::FREE, 4, 3), spot(2, Spot::FREE, 6, 3)];
    let all = vec![rsvp(1, 0)];
    let user = vec![rsvp(2, 0)];
    let before = e.compute_limits(&spots, &all, &user, 1);
    let more_all = vec![rsvp(2, 0), rsvp(1, 0), rsvp(1, 0)];
    let more_user = vec![rsvp(1, 0), rsvp(2, 0)];
    let after = e.compute_limits(&spots, &more_all, &more_user, 3);
    assert!(after.total_limit <= before.total_limit);
    assert_eq!(after.spot_limits.len(), before.spot_limits.len());
    for (id, l) in &before.spot_limits {
        assert!(after.spot_limits[id] <= *l);
    }
}

#[test]
fn copies_take_a_numbered_slug_and_a_marked_title() {
    assert_eq!(Event::copy_slug("night", 1), "night-1");
    assert_eq!(Event::copy_slug("night", 12), "night-12");
    assert_eq!(Event::copy_title("Night"), "Night (copy)");
    assert_ne!(Event::copy_slug("night", 1), Event::copy_slug("night", 11));
    assert_ne!(Event::copy_slug("night-1", 1), Event::copy_slug("night", 1));
}

#[test]
fn invitations_need_a_guest_list() {
    let mut e = event(10, None);
    e.guest_list_id = None;
    assert_eq!(invite_guest_list(&e), Err(InviteRefusal::NoGuestList));
    e.guest_list_id = Some(7);
    assert_eq!(invite_guest_list(&e), Ok(7));
}
