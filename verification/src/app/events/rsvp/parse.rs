//! Parsing and checking of the RSVP forms once their JSON has been read.
use vstd::prelude::*;

use crate::db::rsvp::EventRsvp;
use crate::db::spot::Spot;
use crate::db::user::{CreateUser, User};
use crate::text::{char_is_whitespace, is_blank, lemma_trim_keeps_first, push_char, str_eq, trim_seq};

verus! {

/// Why a selection form was refused.
#[derive(Clone, Copy, Debug, PartialEq, Eq)]
pub enum ParseSelectionError {
    /// failed to parse request JSON
    Parse,
    /// unknown spot_id
    UnknownSpot { spot_id: i64 },
    /// contribution is outside of range for spot_id
    SpotRange { spot_id: i64 },
}

/// One line of the selection form: how many of a spot, and the pledge for a variable spot.
#[derive(Clone, Copy, Debug, PartialEq, Eq)]
pub struct RsvpForm {
    pub spot_id: i64,
    pub qty: i64,
    pub contribution: Option<i64>,
}

/// Index of the first spot with id `spot_id`, or -1.
pub open spec fn first_spot_index(spots: Seq<Spot>, spot_id: i64) -> int
    decreases spots.len(),
{
    if spots.len() == 0 {
        -1
    } else if spots[0].id == spot_id {
        0
    } else {
        let k = first_spot_index(spots.drop_first(), spot_id);
        if k < 0 { -1 } else { k + 1 }
    }
}

pub proof fn lemma_first_spot_index(spots: Seq<Spot>, spot_id: i64)
    ensures
        -1 <= first_spot_index(spots, spot_id) < spots.len(),
        first_spot_index(spots, spot_id) >= 0 ==> spots[first_spot_index(spots, spot_id)].id == spot_id,
        forall|k: int| 0 <= k < spots.len() && (first_spot_index(spots, spot_id) < 0 || k < first_spot_index(spots, spot_id))
            ==> #[trigger] spots[k].id != spot_id,
    decreases spots.len(),
{
    if spots.len() > 0 {
        lemma_first_spot_index(spots.drop_first(), spot_id);
        assert forall|k: int| 1 <= k < spots.len() implies spots.drop_first()[k - 1] == spots[k] by {}
    }
}

/// The outcome of reading one form line, or of the whole form.
pub enum SelectionOutcome {
    Rsvps(Seq<EventRsvp>),
    Refused(ParseSelectionError),
    /// The form cannot be read past this line: a spot of unknown kind, a fixed spot without a
    /// price, a variable spot without bounds, or a variable line without a pledge.
    Panic,
}

/// The pledge a line makes for `spot`, by the spot's kind.
pub open spec fn line_contribution(spot: Spot, line: RsvpForm) -> Option<i64> {
    if spot.kind@ == Spot::FIXED@ {
        spot.required_contribution
    } else if spot.kind@ == Spot::VARIABLE@ {
        line.contribution
    } else if spot.kind@ == Spot::FREE@ || spot.kind@ == Spot::WORK@ {
        Some(0)
    } else {
        None
    }
}

/// What one form line yields: `qty` copies of an RSVP for its spot, or an error.
pub open spec fn line_outcome(spots: Seq<Spot>, line: RsvpForm) -> SelectionOutcome {
    let k = first_spot_index(spots, line.spot_id);
    if k < 0 {
        SelectionOutcome::Refused(ParseSelectionError::UnknownSpot { spot_id: line.spot_id })
    } else {
        let spot = spots[k];
        match line_contribution(spot, line) {
            None => SelectionOutcome::Panic,
            Some(c) => if spot.kind@ == Spot::VARIABLE@ {
                if spot.min_contribution is None || spot.max_contribution is None {
                    SelectionOutcome::Panic
                } else if !(spot.min_contribution->0 <= c <= spot.max_contribution->0) {
                    SelectionOutcome::Refused(ParseSelectionError::SpotRange { spot_id: line.spot_id })
                } else {
                    SelectionOutcome::Rsvps(copies(line.spot_id, c, line.qty))
                }
            } else {
                SelectionOutcome::Rsvps(copies(line.spot_id, c, line.qty))
            },
        }
    }
}

/// `qty` copies (none when `qty` is not positive) of an unsaved RSVP.
pub open spec fn copies(spot_id: i64, contribution: i64, qty: i64) -> Seq<EventRsvp> {
    Seq::new(if qty > 0 { qty as nat } else { 0 }, |i: int| EventRsvp { rsvp_id: 0, spot_id, contribution })
}

/// The form lines read in order; the first error or panic stops the reading.
pub open spec fn selection_outcome(spots: Seq<Spot>, lines: Seq<RsvpForm>) -> SelectionOutcome
    decreases lines.len(),
{
    if lines.len() == 0 {
        SelectionOutcome::Rsvps(Seq::empty())
    } else {
        match line_outcome(spots, lines[0]) {
            SelectionOutcome::Rsvps(first) => match selection_outcome(spots, lines.drop_first()) {
                SelectionOutcome::Rsvps(rest) => SelectionOutcome::Rsvps(first + rest),
                other => other,
            },
            other => other,
        }
    }
}

/// `outcome` with `prefix` put in front of its RSVPs.
pub open spec fn prepend(prefix: Seq<EventRsvp>, outcome: SelectionOutcome) -> SelectionOutcome {
    match outcome {
        SelectionOutcome::Rsvps(rest) => SelectionOutcome::Rsvps(prefix + rest),
        other => other,
    }
}

/// How many RSVPs the lines ask for: the sum of their positive quantities.
pub open spec fn requested(lines: Seq<RsvpForm>) -> int
    decreases lines.len(),
{
    if lines.len() == 0 {
        0
    } else {
        (if lines[0].qty > 0 { lines[0].qty as int } else { 0 }) + requested(lines.drop_first())
    }
}

/// An RSVP that a selection may yield: not saved yet, for a spot of the event, with the
/// pledge that the spot's kind calls for.
pub open spec fn fits_spot(spots: Seq<Spot>, r: EventRsvp) -> bool {
    let k = first_spot_index(spots, r.spot_id);
    &&& r.rsvp_id == 0
    &&& 0 <= k < spots.len()
    &&& spots[k].kind@ == Spot::FIXED@ ==> spots[k].required_contribution == Some(r.contribution)
    &&& spots[k].kind@ == Spot::VARIABLE@ ==> spots[k].min_contribution is Some && spots[k].max_contribution is Some
        && spots[k].min_contribution->0 <= r.contribution <= spots[k].max_contribution->0
    &&& (spots[k].kind@ == Spot::FREE@ || spots[k].kind@ == Spot::WORK@) ==> r.contribution == 0
}

/// A selection that is accepted yields exactly as many RSVPs as its lines ask for, each for
/// a spot of the event, with the fixed price, a pledge within the spot's bounds, or nothing,
/// as the spot's kind says.
pub proof fn lemma_accepted_selection_fits_spots(spots: Seq<Spot>, lines: Seq<RsvpForm>)
    requires
        selection_outcome(spots, lines) is Rsvps,
    ensures
        ({
            let v = selection_outcome(spots, lines)->Rsvps_0;
            &&& v.len() == requested(lines)
            &&& forall|i: int| 0 <= i < v.len() ==> fits_spot(spots, #[trigger] v[i])
        }),
    decreases lines.len(),
{
    reveal_strlit("free");
    reveal_strlit("fixed");
    reveal_strlit("variable");
    reveal_strlit("work");
    if lines.len() > 0 {
        let line = lines[0];
        lemma_first_spot_index(spots, line.spot_id);
        let first = line_outcome(spots, line)->Rsvps_0;
        lemma_accepted_selection_fits_spots(spots, lines.drop_first());
        let rest = selection_outcome(spots, lines.drop_first())->Rsvps_0;
        let v = selection_outcome(spots, lines)->Rsvps_0;
        assert(v == first + rest);
        let k = first_spot_index(spots, line.spot_id);
        assert(k >= 0);
        let c = line_contribution(spots[k], line)->0;
        assert(first == copies(line.spot_id, c, line.qty));
        assert(Spot::FREE@.len() == 4 && Spot::FIXED@.len() == 5 && Spot::VARIABLE@.len() == 8 && Spot::WORK@.len() == 4);
        assert(Spot::FREE@[0] == 'f' && Spot::WORK@[0] == 'w');
        assert(Spot::FREE@ != Spot::FIXED@ && Spot::FREE@ != Spot::VARIABLE@ && Spot::WORK@ != Spot::FIXED@
            && Spot::WORK@ != Spot::VARIABLE@ && Spot::FIXED@ != Spot::VARIABLE@);
        assert forall|i: int| 0 <= i < first.len() implies fits_spot(spots, #[trigger] first[i]) by {
            assert(first[i] == EventRsvp { rsvp_id: 0, spot_id: line.spot_id, contribution: c });
        }
        assert forall|i: int| 0 <= i < v.len() implies fits_spot(spots, #[trigger] v[i]) by {
            if i < first.len() {
                assert(v[i] == first[i]);
            } else {
                assert(v[i] == rest[i - first.len()]);
            }
        }
    }
}

fn find_spot(spots: &[Spot], spot_id: i64) -> (k: Option<usize>)
    ensures
        match k {
            None => first_spot_index(spots@, spot_id) < 0,
            Some(k) => k < spots@.len() && first_spot_index(spots@, spot_id) == k,
        },
{
    proof {
        lemma_first_spot_index(spots@, spot_id);
    }
    let mut k: usize = 0;
    while k < spots.len()
        invariant
            k <= spots@.len(),
            forall|j: int| 0 <= j < k ==> spots@[j].id != spot_id,
            -1 <= first_spot_index(spots@, spot_id) < spots@.len(),
            first_spot_index(spots@, spot_id) >= 0 ==> spots@[first_spot_index(spots@, spot_id)].id == spot_id,
            forall|j: int| 0 <= j < spots@.len() && (first_spot_index(spots@, spot_id) < 0 || j < first_spot_index(spots@, spot_id))
                ==> #[trigger] spots@[j].id != spot_id,
        decreases spots@.len() - k,
    {
        if spots[k].id == spot_id {
            return Some(k);
        }
        k = k + 1;
    }
    None
}

/// Whether one line stops the reading with a refusal (`Some(false)`), would be a panic
/// (`Some(true)`), or is read (`None`).
fn line_stops(spots: &[Spot], line: RsvpForm) -> (r: Option<bool>)
    ensures
        r == (match line_outcome(spots@, line) {
            SelectionOutcome::Rsvps(_) => None,
            SelectionOutcome::Refused(_) => Some(false),
            SelectionOutcome::Panic => Some(true),
        }),
{
    let k = match find_spot(spots, line.spot_id) {
        None => {
            return Some(false);
        },
        Some(k) => k,
    };
    let spot = &spots[k];
    let kind = spot.kind.as_str();
    let is_variable = str_eq(kind, Spot::VARIABLE);
    let contribution: i64 = if str_eq(kind, Spot::FIXED) {
        match spot.required_contribution {
            Some(c) => c,
            None => {
                return Some(true);
            },
        }
    } else if is_variable {
        match line.contribution {
            Some(c) => c,
            None => {
                return Some(true);
            },
        }
    } else if str_eq(kind, Spot::FREE) || str_eq(kind, Spot::WORK) {
        0
    } else {
        return Some(true);
    };
    if is_variable {
        match (spot.min_contribution, spot.max_contribution) {
            (Some(min), Some(max)) => {
                if !(min <= contribution && contribution <= max) {
                    return Some(false);
                }
            },
            _ => {
                return Some(true);
            },
        }
    }
    None
}

/// Whether reading the selection would reach a line that the form cannot be read past
/// without a spot's kind or prices, or a variable line's pledge: an unknown kind, a fixed
/// spot without a price, a variable spot without bounds, or a variable line without a
/// pledge, before any refusal.
pub fn selection_would_panic(spots: &[Spot], lines: &[RsvpForm]) -> (r: bool)
    ensures
        r == (selection_outcome(spots@, lines@) is Panic),
{
    let mut i: usize = 0;
    assert(lines@.skip(0) =~= lines@);
    while i < lines.len()
        invariant
            i <= lines@.len(),
            (selection_outcome(spots@, lines@) is Panic) == (selection_outcome(spots@, lines@.skip(i as int)) is Panic),
        decreases lines@.len() - i,
    {
        let ghost rest = lines@.skip(i as int);
        proof {
            assert(rest[0] == lines@[i as int]);
            assert(rest.drop_first() =~= lines@.skip(i + 1));
        }
        match line_stops(spots, lines[i]) {
            Some(panics) => {
                return panics;
            },
            None => {},
        }
        i = i + 1;
    }
    proof {
        assert(lines@.skip(i as int).len() == 0);
    }
    false
}

/// Read a selection form: each line names a spot of the event, how many of it to
/// reserve, and for a variable spot the pledge, which must lie within the spot's bounds.
pub fn selection_form(spots: &[Spot], lines: &[RsvpForm]) -> (r: Result<Vec<EventRsvp>, ParseSelectionError>)
    requires
        !(selection_outcome(spots@, lines@) is Panic),
    ensures
        match r {
            Ok(v) => selection_outcome(spots@, lines@) == SelectionOutcome::Rsvps(v@),
            Err(e) => selection_outcome(spots@, lines@) == SelectionOutcome::Refused(e),
        },
{
    let mut parsed: Vec<EventRsvp> = Vec::new();
    let mut i: usize = 0;
    assert(lines@.skip(0) =~= lines@);
    while i < lines.len()
        invariant
            i <= lines@.len(),
            selection_outcome(spots@, lines@) == prepend(parsed@, selection_outcome(spots@, lines@.skip(i as int))),
            !(selection_outcome(spots@, lines@) is Panic),
        decreases lines@.len() - i,
    {
        let line = lines[i];
        let ghost rest = lines@.skip(i as int);
        proof {
            assert(rest[0] == line);
            assert(rest.drop_first() =~= lines@.skip(i + 1));
        }
        let spot_id = line.spot_id;
        let k = match find_spot(spots, spot_id) {
            None => {
                return Err(ParseSelectionError::UnknownSpot { spot_id });
            },
            Some(k) => k,
        };
        let spot = &spots[k];
        let kind = spot.kind.as_str();
        let is_variable = str_eq(kind, Spot::VARIABLE);
        let contribution: i64 = if str_eq(kind, Spot::FIXED) {
            match spot.required_contribution {
                Some(c) => c,
                None => {
                    proof {
                        assert(line_outcome(spots@, line) is Panic);
                    }
                    return Err(ParseSelectionError::Parse);
                },
            }
        } else if is_variable {
            match line.contribution {
                Some(c) => c,
                None => {
                    proof {
                        assert(line_outcome(spots@, line) is Panic);
                    }
                    return Err(ParseSelectionError::Parse);
                },
            }
        } else if str_eq(kind, Spot::FREE) || str_eq(kind, Spot::WORK) {
            0
        } else {
            proof {
                assert(line_outcome(spots@, line) is Panic);
            }
            return Err(ParseSelectionError::Parse);
        };
        if is_variable {
            match (spot.min_contribution, spot.max_contribution) {
                (Some(min), Some(max)) => {
                    if !(min <= contribution && contribution <= max) {
                        return Err(ParseSelectionError::SpotRange { spot_id });
                    }
                },
                _ => {
                    proof {
                        assert(line_outcome(spots@, line) is Panic);
                    }
                    return Err(ParseSelectionError::Parse);
                },
            }
        }
        let ghost before = parsed@;
        let mut q: i64 = 0;
        while q < line.qty
            invariant
                0 <= q,
                line.qty > 0 ==> q <= line.qty,
                line.qty <= 0 ==> q == 0,
                parsed@ == before + copies(spot_id, contribution, q),
            decreases line.qty - q,
        {
            parsed.push(EventRsvp { rsvp_id: 0, spot_id, contribution });
            proof {
                assert(before + copies(spot_id, contribution, (q + 1) as i64) =~= (before + copies(spot_id, contribution, q)).push(
                    EventRsvp { rsvp_id: 0, spot_id, contribution },
                ));
            }
            q = q + 1;
        }
        proof {
            assert(copies(spot_id, contribution, q) =~= copies(spot_id, contribution, line.qty));
            assert(line_outcome(spots@, line) == SelectionOutcome::Rsvps(copies(spot_id, contribution, line.qty)));
            let first = copies(spot_id, contribution, line.qty);
            match selection_outcome(spots@, lines@.skip(i + 1)) {
                SelectionOutcome::Rsvps(tail) => {
                    assert(before + (first + tail) =~= (before + first) + tail);
                },
                _ => {},
            }
        }
        i = i + 1;
    }
    proof {
        assert(lines@.skip(i as int).len() == 0);
        assert(parsed@ + Seq::<EventRsvp>::empty() =~= parsed@);
    }
    Ok(parsed)
}


/// Why an attendees form was refused.
#[derive(Clone, Debug)]
pub enum ParseAttendeesError {
    /// failed to parse request JSON
    Parse,
    /// unknown or duplicate rsvp_id
    UnknownOrDuplicateRsvp { rsvp_id: i64 },
    /// missing attendee for rsvp_ids
    MissingAttendee { rsvp_ids: Vec<i64> },
    /// missing attendee with is_me=true
    MissingPrimary,
    /// multiple attendees with is_me=true
    MultiplePrimary,
    /// modified attendee with is_me=true
    PrimaryChanged,
    /// invalid name
    InvalidName { first_name: String, last_name: String },
    /// invalid phone number
    InvalidPhone { phone: String },
    /// duplicate email
    DuplicateEmail { email: String },
    /// duplicate phone
    DuplicatePhone { phone: String },
}

/// A refusal as plain values.
pub enum AttendeesRefusal {
    Parse,
    UnknownOrDuplicateRsvp(i64),
    MissingAttendee(Set<i64>),
    MissingPrimary,
    MultiplePrimary,
    PrimaryChanged,
    InvalidName(Seq<char>, Seq<char>),
    InvalidPhone(Seq<char>),
    DuplicateEmail(Seq<char>),
    DuplicatePhone(Seq<char>),
}

pub open spec fn refusal_view(e: ParseAttendeesError) -> AttendeesRefusal {
    match e {
        ParseAttendeesError::Parse => AttendeesRefusal::Parse,
        ParseAttendeesError::UnknownOrDuplicateRsvp { rsvp_id } => AttendeesRefusal::UnknownOrDuplicateRsvp(rsvp_id),
        ParseAttendeesError::MissingAttendee { rsvp_ids } => AttendeesRefusal::MissingAttendee(rsvp_ids@.to_set()),
        ParseAttendeesError::MissingPrimary => AttendeesRefusal::MissingPrimary,
        ParseAttendeesError::MultiplePrimary => AttendeesRefusal::MultiplePrimary,
        ParseAttendeesError::PrimaryChanged => AttendeesRefusal::PrimaryChanged,
        ParseAttendeesError::InvalidName { first_name, last_name } => AttendeesRefusal::InvalidName(first_name@, last_name@),
        ParseAttendeesError::InvalidPhone { phone } => AttendeesRefusal::InvalidPhone(phone@),
        ParseAttendeesError::DuplicateEmail { email } => AttendeesRefusal::DuplicateEmail(email@),
        ParseAttendeesError::DuplicatePhone { phone } => AttendeesRefusal::DuplicatePhone(phone@),
    }
}

pub open spec fn is_ascii_digit(c: char) -> bool {
    '0' <= c && c <= '9'
}

/// The ASCII digits of `s`, in order.
pub open spec fn digits_of(s: Seq<char>) -> Seq<char>
    decreases s.len(),
{
    if s.len() == 0 {
        Seq::empty()
    } else if is_ascii_digit(s.last()) {
        digits_of(s.drop_last()).push(s.last())
    } else {
        digits_of(s.drop_last())
    }
}

pub proof fn lemma_digits_len(s: Seq<char>)
    ensures
        digits_of(s).len() <= s.len(),
    decreases s.len(),
{
    if s.len() > 0 {
        lemma_digits_len(s.drop_last());
    }
}

/// A phone number in E.164 form, nothing for a blank one, or the refused input.
pub open spec fn phone_outcome(phone: Option<Seq<char>>) -> Result<Option<Seq<char>>, Seq<char>> {
    match phone {
        None => Ok(None),
        Some(p) => if trim_seq(p).len() == 0 {
            Ok(None)
        } else {
            let d = digits_of(p);
            if d.len() == 10 {
                Ok(Some("+1"@ + d))
            } else if 11 <= d.len() <= 15 {
                Ok(Some("+"@ + d))
            } else {
                Err(p)
            }
        },
    }
}

proof fn lemma_digits_are_digits(s: Seq<char>)
    ensures
        forall|i: int| 0 <= i < digits_of(s).len() ==> is_ascii_digit(#[trigger] digits_of(s)[i]),
    decreases s.len(),
{
    if s.len() > 0 {
        lemma_digits_are_digits(s.drop_last());
        let prev = digits_of(s.drop_last());
        assert forall|i: int| 0 <= i < digits_of(s).len() implies is_ascii_digit(#[trigger] digits_of(s)[i]) by {
            if i < prev.len() {
                assert(digits_of(s)[i] == prev[i]);
            }
        }
    }
}

/// An accepted phone number comes out in E.164 form: `+` and then 11 to 15 ASCII digits.
pub proof fn lemma_phone_is_e164(phone: Option<Seq<char>>)
    requires
        phone_outcome(phone) matches Ok(Some(_)),
    ensures
        ({
            let p = phone_outcome(phone)->Ok_0->0;
            &&& p[0] == '+'
            &&& 12 <= p.len() <= 16
            &&& forall|i: int| 1 <= i < p.len() ==> is_ascii_digit(#[trigger] p[i])
        }),
{
    reveal_strlit("+1");
    reveal_strlit("+");
    let d = digits_of(phone->0);
    lemma_digits_are_digits(phone->0);
    let p = phone_outcome(phone)->Ok_0->0;
    if d.len() == 10 {
        assert(p == "+1"@ + d);
        assert forall|i: int| 1 <= i < p.len() implies is_ascii_digit(#[trigger] p[i]) by {
            if i >= 2 {
                assert(p[i] == d[i - 2]);
            }
        }
    } else {
        assert(p == "+"@ + d);
        assert forall|i: int| 1 <= i < p.len() implies is_ascii_digit(#[trigger] p[i]) by {
            assert(p[i] == d[i - 1]);
        }
    }
}

proof fn lemma_digits_append(a: Seq<char>, b: Seq<char>)
    ensures
        digits_of(a + b) == digits_of(a) + digits_of(b),
    decreases b.len(),
{
    if b.len() == 0 {
        assert(a + b =~= a);
        assert(digits_of(a) + digits_of(b) =~= digits_of(a));
    } else {
        assert((a + b).drop_last() =~= a + b.drop_last());
        lemma_digits_append(a, b.drop_last());
        assert((a + b).last() == b.last());
        if is_ascii_digit(b.last()) {
            assert(digits_of(a) + digits_of(b.drop_last()).push(b.last()) =~= (digits_of(a) + digits_of(
                b.drop_last(),
            )).push(b.last()));
        }
    }
}

proof fn lemma_digits_of_digits(d: Seq<char>)
    requires
        forall|i: int| 0 <= i < d.len() ==> is_ascii_digit(#[trigger] d[i]),
    ensures
        digits_of(d) == d,
    decreases d.len(),
{
    if d.len() > 0 {
        lemma_digits_of_digits(d.drop_last());
        assert(is_ascii_digit(d[d.len() - 1]));
        assert(d.drop_last().push(d.last()) =~= d);
    }
}

/// Normalizing a phone number is done once for all: a normalized number reads back as
/// itself. A number is refused exactly when it is not blank and holds a count of ASCII
/// digits outside 10 to 15, and the refusal carries the number as entered.
pub proof fn lemma_phone_normalization_idempotent(phone: Option<Seq<char>>)
    ensures
        phone_outcome(phone) matches Ok(Some(p)) ==> phone_outcome(Some(p)) == Ok::<Option<Seq<char>>, Seq<char>>(
            Some(p),
        ),
        phone_outcome(phone) is Err <==> (phone is Some && trim_seq(phone->0).len() > 0 && !(10 <= digits_of(
            phone->0,
        ).len() <= 15)),
        phone_outcome(phone) matches Err(s) ==> phone == Some(s),
{
    reveal_strlit("+1");
    reveal_strlit("+");
    reveal_strlit("1");
    if phone_outcome(phone) matches Ok(Some(_)) {
        let p = phone_outcome(phone)->Ok_0->0;
        let d = digits_of(phone->0);
        lemma_digits_are_digits(phone->0);
        lemma_digits_of_digits(d);
        assert(!char_is_whitespace('+'));
        assert(p[0] == '+');
        lemma_trim_keeps_first(p);
        assert(digits_of("+"@) =~= Seq::<char>::empty()) by {
            reveal_with_fuel(digits_of, 2);
            assert("+"@.len() == 1 && "+"@.last() == '+');
            assert("+"@.drop_last() =~= Seq::<char>::empty());
        }
        if d.len() == 10 {
            assert("+1"@ =~= "+"@ + "1"@);
            assert(digits_of("1"@) =~= "1"@) by {
                reveal_with_fuel(digits_of, 2);
                assert("1"@.len() == 1 && "1"@.last() == '1');
                assert("1"@.drop_last() =~= Seq::<char>::empty());
                assert(Seq::<char>::empty().push('1') =~= "1"@);
            }
            lemma_digits_append("+"@, "1"@);
            lemma_digits_append("+1"@, d);
            assert(digits_of(p) =~= "1"@ + d);
            assert("+"@ + ("1"@ + d) =~= "+1"@ + d);
        } else {
            lemma_digits_append("+"@, d);
            assert(digits_of(p) =~= d);
        }
    }
}

pub open spec fn opt_view(o: Option<String>) -> Option<Seq<char>> {
    match o {
        Some(s) => Some(s@),
        None => None,
    }
}

fn ascii_digits(s: &str) -> (d: String)
    ensures
        d@ == digits_of(s@),
{
    let n = s.unicode_len();
    let mut d = String::new();
    let mut i: usize = 0;
    while i < n
        invariant
            n == s@.len(),
            i <= n,
            d@ == digits_of(s@.take(i as int)),
        decreases n - i,
    {
        assert(s@.take(i + 1).drop_last() =~= s@.take(i as int));
        let c = s.get_char(i);
        if '0' <= c && c <= '9' {
            push_char(&mut d, c);
        }
        i = i + 1;
    }
    assert(s@.take(n as int) =~= s@);
    d
}

/// Normalize phone to E.164 format.
/// Empty string is ok (returns None). 10 digits assumes +1. 11-15 digits assumes leading +.
pub fn parse_phone(phone: Option<String>) -> (r: Result<Option<String>, ParseAttendeesError>)
    ensures
        match r {
            Ok(p) => phone_outcome(opt_view(phone)) == Ok::<Option<Seq<char>>, Seq<char>>(opt_view(p)),
            Err(e) => phone_outcome(opt_view(phone)) == Err::<Option<Seq<char>>, Seq<char>>(opt_view(phone)->0)
                && e == ParseAttendeesError::InvalidPhone { phone: phone->0 },
        },
{
    let phone = match phone {
        None => {
            return Ok(None);
        },
        Some(p) => p,
    };
    if is_blank(phone.as_str()) {
        return Ok(None);
    }
    let digits = ascii_digits(phone.as_str());
    let len = digits.as_str().unicode_len();
    if len == 10 {
        let mut out = String::from_str("+1");
        out.append(digits.as_str());
        Ok(Some(out))
    } else if 11 <= len && len <= 15 {
        let mut out = String::from_str("+");
        out.append(digits.as_str());
        Ok(Some(out))
    } else {
        Err(ParseAttendeesError::InvalidPhone { phone })
    }
}


/// One attendee as entered on the "Who will be attending?" form.
#[derive(Clone, Debug)]
pub struct AttendeeForm {
    pub rsvp_id: i64,
    pub first_name: String,
    pub last_name: String,
    pub email: String,
    pub phone: Option<String>,
    pub is_me: bool,
}

/// An attendee matched to one of the session's RSVPs.
#[derive(Clone, Debug)]
pub struct ParsedAttendee {
    pub rsvp_id: i64,
    pub user: CreateUser,
}

/// An attendee as plain values: (rsvp id, email, first name, last name, phone).
pub type AttendeeView = (i64, Seq<char>, Option<Seq<char>>, Option<Seq<char>>, Option<Seq<char>>);

pub open spec fn attendee_view(a: ParsedAttendee) -> AttendeeView {
    (a.rsvp_id, a.user.email@, opt_view(a.user.first_name), opt_view(a.user.last_name), opt_view(a.user.phone))
}

/// What has been read of the form so far.
pub struct AttendeesState {
    /// RSVPs not yet given an attendee.
    pub remaining: Set<i64>,
    pub emails: Set<Seq<char>>,
    pub phones: Set<Seq<char>>,
    pub primary: Option<AttendeeView>,
    pub guests: Seq<AttendeeView>,
}

/// Reads one attendee: it must claim an RSVP not yet claimed, have both names, an email
/// and phone not seen before, and a valid phone; the attendee marked as the guest
/// themself must keep the session user's email, and there may be only one.
pub open spec fn attendee_step(st: AttendeesState, a: AttendeeForm, session_email: Option<Seq<char>>) -> Result<
    AttendeesState,
    AttendeesRefusal,
> {
    if !st.remaining.contains(a.rsvp_id) {
        Err(AttendeesRefusal::UnknownOrDuplicateRsvp(a.rsvp_id))
    } else if a.first_name@.len() == 0 || a.last_name@.len() == 0 {
        Err(AttendeesRefusal::InvalidName(a.first_name@, a.last_name@))
    } else if st.emails.contains(a.email@) {
        Err(AttendeesRefusal::DuplicateEmail(a.email@))
    } else {
        match phone_outcome(opt_view(a.phone)) {
            Err(p) => Err(AttendeesRefusal::InvalidPhone(p)),
            Ok(phone) => if phone is Some && st.phones.contains(phone->0) {
                Err(AttendeesRefusal::DuplicatePhone(phone->0))
            } else {
                let view: AttendeeView = (a.rsvp_id, a.email@, Some(a.first_name@), Some(a.last_name@), phone);
                let next = AttendeesState {
                    remaining: st.remaining.remove(a.rsvp_id),
                    emails: st.emails.insert(a.email@),
                    phones: match phone {
                        Some(p) => st.phones.insert(p),
                        None => st.phones,
                    },
                    primary: st.primary,
                    guests: st.guests,
                };
                if a.is_me {
                    if session_email is Some && a.email@ != session_email->0 {
                        Err(AttendeesRefusal::PrimaryChanged)
                    } else if st.primary is Some {
                        Err(AttendeesRefusal::MultiplePrimary)
                    } else {
                        Ok(AttendeesState { primary: Some(view), ..next })
                    }
                } else {
                    Ok(AttendeesState { guests: st.guests.push(view), ..next })
                }
            },
        }
    }
}

/// Reads the attendees in order, stopping at the first refusal.
pub open spec fn attendees_run(st: AttendeesState, attendees: Seq<AttendeeForm>, session_email: Option<Seq<char>>) -> Result<
    AttendeesState,
    AttendeesRefusal,
>
    decreases attendees.len(),
{
    if attendees.len() == 0 {
        Ok(st)
    } else {
        match attendee_step(st, attendees[0], session_email) {
            Ok(next) => attendees_run(next, attendees.drop_first(), session_email),
            Err(e) => Err(e),
        }
    }
}

pub open spec fn session_email(session_user: Option<User>) -> Option<Seq<char>> {
    match session_user {
        Some(u) => Some(u.email@),
        None => None,
    }
}

pub open spec fn initial_state(rsvps: Seq<EventRsvp>) -> AttendeesState {
    AttendeesState {
        remaining: rsvps.map_values(|r: EventRsvp| r.rsvp_id).to_set(),
        emails: Set::empty(),
        phones: Set::empty(),
        primary: None,
        guests: Seq::empty(),
    }
}

/// The whole form: every RSVP must be claimed, and exactly one attendee must be the
/// guest themself.
pub open spec fn attendees_outcome(session_user: Option<User>, rsvps: Seq<EventRsvp>, attendees: Seq<AttendeeForm>) -> Result<
    (AttendeeView, Seq<AttendeeView>),
    AttendeesRefusal,
> {
    match attendees_run(initial_state(rsvps), attendees, session_email(session_user)) {
        Err(e) => Err(e),
        Ok(st) => match st.primary {
            None => Err(AttendeesRefusal::MissingPrimary),
            Some(p) => if st.remaining != Set::<i64>::empty() {
                Err(AttendeesRefusal::MissingAttendee(st.remaining))
            } else {
                Ok((p, st.guests))
            },
        },
    }
}

pub open spec fn strings_view(v: Seq<String>) -> Set<Seq<char>> {
    v.map_values(|s: String| s@).to_set()
}

fn holds_string(v: &Vec<String>, s: &String) -> (r: bool)
    ensures
        r == strings_view(v@).contains(s@),
{
    let mut k: usize = 0;
    while k < v.len()
        invariant
            k <= v@.len(),
            forall|j: int| 0 <= j < k ==> v@[j]@ != s@,
        decreases v@.len() - k,
    {
        if v[k] == *s {
            proof {
                assert(v@.map_values(|s: String| s@)[k as int] == s@);
            }
            return true;
        }
        k = k + 1;
    }
    proof {
        let m = v@.map_values(|s: String| s@);
        if strings_view(v@).contains(s@) {
            let j = choose|j: int| 0 <= j < m.len() && #[trigger] m[j] == s@;
            assert(v@[j]@ == s@);
        }
    }
    false
}

proof fn lemma_strings_push(v: Seq<String>, s: String)
    ensures
        strings_view(v.push(s)) == strings_view(v).insert(s@),
{
    assert(v.push(s).map_values(|s: String| s@) =~= v.map_values(|s: String| s@).push(s@));
    vstd::seq_lib::lemma_seq_contains_after_push(v.map_values(|s: String| s@), s@, s@);
    assert(strings_view(v.push(s)) =~= strings_view(v).insert(s@)) by {
        broadcast use vstd::seq_lib::group_seq_properties;
    }
}

proof fn lemma_remove_distinct(v: Seq<i64>, j: int)
    requires
        0 <= j < v.len(),
        v.no_duplicates(),
    ensures
        v.remove(j).to_set() == v.to_set().remove(v[j]),
        v.remove(j).no_duplicates(),
{
    let w = v.remove(j);
    assert forall|x: i64| w.to_set().contains(x) <==> v.to_set().remove(v[j]).contains(x) by {
        if w.to_set().contains(x) {
            let k = choose|k: int| 0 <= k < w.len() && w[k] == x;
            if k < j {
                assert(v[k] == x);
            } else {
                assert(v[k + 1] == x);
            }
        }
        if v.to_set().remove(v[j]).contains(x) {
            let k = choose|k: int| 0 <= k < v.len() && v[k] == x;
            assert(k != j);
            if k < j {
                assert(w[k] == x);
            } else {
                assert(w[k - 1] == x);
            }
        }
    }
    assert(w.to_set() =~= v.to_set().remove(v[j]));
}

/// The distinct RSVP ids of `rsvps`, in order of first appearance.
fn distinct_ids(rsvps: &[EventRsvp]) -> (ids: Vec<i64>)
    ensures
        ids@.no_duplicates(),
        ids@.to_set() == rsvps@.map_values(|r: EventRsvp| r.rsvp_id).to_set(),
{
    let mut ids: Vec<i64> = Vec::new();
    let mut i: usize = 0;
    while i < rsvps.len()
        invariant
            i <= rsvps@.len(),
            ids@.no_duplicates(),
            ids@.to_set() == rsvps@.take(i as int).map_values(|r: EventRsvp| r.rsvp_id).to_set(),
        decreases rsvps@.len() - i,
    {
        let id = rsvps[i].rsvp_id;
        let mut k: usize = 0;
        let mut seen = false;
        while k < ids.len() && !seen
            invariant
                k <= ids@.len(),
                seen ==> k < ids@.len() && ids@[k as int] == id,
                forall|j: int| 0 <= j < k ==> ids@[j] != id,
            decreases ids@.len() - k, if seen { 0int } else { 1int },
        {
            if ids[k] == id {
                seen = true;
            } else {
                k = k + 1;
            }
        }
        let ghost before = ids@;
        if !seen {
            ids.push(id);
        }
        proof {
            let prev = rsvps@.take(i as int).map_values(|r: EventRsvp| r.rsvp_id);
            let next = rsvps@.take(i + 1).map_values(|r: EventRsvp| r.rsvp_id);
            assert(next =~= prev.push(id));
            assert(next.to_set() =~= prev.to_set().insert(id)) by {
                broadcast use vstd::seq_lib::group_seq_properties;
            }
            if seen {
                assert(before.to_set().contains(id));
                assert(ids@.to_set() =~= next.to_set());
            } else {
                assert(ids@ == before.push(id));
                assert(ids@.to_set() =~= before.to_set().insert(id)) by {
                    broadcast use vstd::seq_lib::group_seq_properties;
                }
            }
        }
        i = i + 1;
    }
    assert(rsvps@.take(i as int) =~= rsvps@);
    ids
}


pub open spec fn state_view(
    remaining: Seq<i64>,
    emails: Seq<String>,
    phones: Seq<String>,
    primary: Option<ParsedAttendee>,
    guests: Seq<ParsedAttendee>,
) -> AttendeesState {
    AttendeesState {
        remaining: remaining.to_set(),
        emails: strings_view(emails),
        phones: strings_view(phones),
        primary: match primary {
            Some(p) => Some(attendee_view(p)),
            None => None,
        },
        guests: guests.map_values(|a: ParsedAttendee| attendee_view(a)),
    }
}

/// Read the attendees form: match each attendee to one of the session's RSVPs, check
/// names, emails and phones, and split off the attendee who is the guest themself.
pub fn attendees_form(session_user: &Option<User>, rsvps: &[EventRsvp], attendees: &[AttendeeForm]) -> (r: Result<
    (ParsedAttendee, Vec<ParsedAttendee>),
    ParseAttendeesError,
>)
    ensures
        match r {
            Ok((p, gs)) => attendees_outcome(*session_user, rsvps@, attendees@) == Ok::<
                (AttendeeView, Seq<AttendeeView>),
                AttendeesRefusal,
            >((attendee_view(p), gs@.map_values(|a: ParsedAttendee| attendee_view(a)))),
            Err(e) => attendees_outcome(*session_user, rsvps@, attendees@) == Err::<
                (AttendeeView, Seq<AttendeeView>),
                AttendeesRefusal,
            >(refusal_view(e)) && (e matches ParseAttendeesError::MissingAttendee { rsvp_ids } ==> rsvp_ids@.no_duplicates()),
        },
{
    let ghost se = session_email(*session_user);
    let mut remaining = distinct_ids(rsvps);
    let mut emails: Vec<String> = Vec::new();
    let mut phones: Vec<String> = Vec::new();
    let mut primary: Option<ParsedAttendee> = None;
    let mut guests: Vec<ParsedAttendee> = Vec::new();
    let mut i: usize = 0;
    proof {
        assert(attendees@.skip(0) =~= attendees@);
        assert(state_view(remaining@, emails@, phones@, primary, guests@) =~= initial_state(rsvps@)) by {
            assert(emails@.map_values(|s: String| s@) =~= Seq::<Seq<char>>::empty());
            assert(strings_view(emails@) =~= Set::<Seq<char>>::empty()) by {
                broadcast use vstd::seq_lib::group_seq_properties;
            }
            assert(guests@.map_values(|a: ParsedAttendee| attendee_view(a)) =~= Seq::<AttendeeView>::empty());
        }
    }
    while i < attendees.len()
        invariant
            i <= attendees@.len(),
            se == session_email(*session_user),
            remaining@.no_duplicates(),
            attendees_run(initial_state(rsvps@), attendees@, se) == attendees_run(
                state_view(remaining@, emails@, phones@, primary, guests@),
                attendees@.skip(i as int),
                se,
            ),
        decreases attendees@.len() - i,
    {
        let a = &attendees[i];
        let ghost st = state_view(remaining@, emails@, phones@, primary, guests@);
        proof {
            assert(attendees@.skip(i as int)[0] == *a);
            assert(attendees@.skip(i as int).drop_first() =~= attendees@.skip(i + 1));
        }
        // Claim the RSVP
        let mut j: usize = 0;
        let mut found = false;
        while j < remaining.len() && !found
            invariant
                j <= remaining@.len(),
                found ==> j < remaining@.len() && remaining@[j as int] == a.rsvp_id,
                forall|k: int| 0 <= k < j ==> remaining@[k] != a.rsvp_id,
            decreases remaining@.len() - j, if found { 0int } else { 1int },
        {
            if remaining[j] == a.rsvp_id {
                found = true;
            } else {
                j = j + 1;
            }
        }
        if !found {
            proof {
                if st.remaining.contains(a.rsvp_id) {
                    let k = choose|k: int| 0 <= k < remaining@.len() && remaining@[k] == a.rsvp_id;
                }
            }
            return Err(ParseAttendeesError::UnknownOrDuplicateRsvp { rsvp_id: a.rsvp_id });
        }
        proof {
            assert(st.remaining.contains(a.rsvp_id));
        }
        // Names
        if a.first_name.as_str().unicode_len() == 0 || a.last_name.as_str().unicode_len() == 0 {
            return Err(ParseAttendeesError::InvalidName { first_name: a.first_name.clone(), last_name: a.last_name.clone() });
        }
        // Email and phone
        if holds_string(&emails, &a.email) {
            return Err(ParseAttendeesError::DuplicateEmail { email: a.email.clone() });
        }
        let phone = match parse_phone(a.phone.clone()) {
            Ok(p) => p,
            Err(e) => {
                return Err(e);
            },
        };
        match &phone {
            Some(p) => {
                if holds_string(&phones, p) {
                    return Err(ParseAttendeesError::DuplicatePhone { phone: p.clone() });
                }
            },
            None => {},
        }
        let ghost old_remaining = remaining@;
        let ghost old_emails = emails@;
        let ghost old_phones = phones@;
        remaining.remove(j);
        emails.push(a.email.clone());
        match &phone {
            Some(p) => {
                phones.push(p.clone());
            },
            None => {},
        }
        proof {
            lemma_remove_distinct(old_remaining, j as int);
            lemma_strings_push(old_emails, a.email);
            if phone is Some {
                lemma_strings_push(old_phones, phone->0);
            } else {
                assert(phones@ == old_phones);
            }
        }
        let user = CreateUser {
            email: a.email.clone(),
            first_name: Some(a.first_name.clone()),
            last_name: Some(a.last_name.clone()),
            phone,
        };
        let attendee = ParsedAttendee { rsvp_id: a.rsvp_id, user };
        if a.is_me {
            match session_user {
                Some(u) => {
                    if a.email != u.email {
                        return Err(ParseAttendeesError::PrimaryChanged);
                    }
                },
                None => {},
            }
            if primary.is_some() {
                return Err(ParseAttendeesError::MultiplePrimary);
            }
            primary = Some(attendee);
        } else {
            let ghost old_guests = guests@;
            guests.push(attendee);
            proof {
                assert(guests@.map_values(|a: ParsedAttendee| attendee_view(a)) =~= old_guests.map_values(
                    |a: ParsedAttendee| attendee_view(a),
                ).push(attendee_view(attendee)));
            }
        }
        proof {
            let next = state_view(remaining@, emails@, phones@, primary, guests@);
            assert(attendee_step(st, *a, se) == Ok::<AttendeesState, AttendeesRefusal>(next));
        }
        i = i + 1;
    }
    proof {
        assert(attendees@.skip(i as int).len() == 0);
    }
    let primary = match primary {
        None => {
            return Err(ParseAttendeesError::MissingPrimary);
        },
        Some(p) => p,
    };
    if remaining.len() > 0 {
        proof {
            assert(remaining@.to_set().contains(remaining@[0]));
        }
        return Err(ParseAttendeesError::MissingAttendee { rsvp_ids: remaining });
    }
    proof {
        assert(remaining@.to_set() =~= Set::<i64>::empty());
    }
    Ok((primary, guests))
}


/// Whether an attendee read so far holds RSVP `id`.
pub open spec fn claims(primary: Option<AttendeeView>, guests: Seq<AttendeeView>, id: i64) -> bool {
    (primary is Some && primary.unwrap().0 == id) || exists|i: int| 0 <= i < guests.len() && #[trigger] guests[i].0 == id
}

/// Both names of an attendee are given.
pub open spec fn named(a: AttendeeView) -> bool {
    a.2 is Some && a.2->0.len() > 0 && a.3 is Some && a.3->0.len() > 0
}

/// No two attendees share an RSVP or an email.
pub open spec fn attendees_distinct(primary: Option<AttendeeView>, guests: Seq<AttendeeView>) -> bool {
    &&& forall|i: int, j: int|
        0 <= i < j < guests.len() ==> #[trigger] guests[i].0 != #[trigger] guests[j].0 && guests[i].1 != guests[j].1
    &&& primary is Some ==> forall|i: int|
        0 <= i < guests.len() ==> #[trigger] guests[i].0 != primary.unwrap().0 && guests[i].1 != primary.unwrap().1
}

/// What holds of the state after `read` attendees of a form for the RSVPs `ids` were accepted.
spec fn run_invariant(st: AttendeesState, ids: Set<i64>, se: Option<Seq<char>>, read: int) -> bool {
    &&& forall|id: i64| ids.contains(id) <==> (st.remaining.contains(id) || claims(st.primary, st.guests, id))
    &&& forall|id: i64| st.remaining.contains(id) ==> !claims(st.primary, st.guests, id)
    &&& attendees_distinct(st.primary, st.guests)
    &&& forall|i: int| 0 <= i < st.guests.len() ==> st.emails.contains(#[trigger] st.guests[i].1) && named(st.guests[i])
    &&& st.primary is Some ==> st.emails.contains(st.primary.unwrap().1) && named(st.primary->0)
    &&& (st.primary is Some && se is Some) ==> st.primary.unwrap().1 == se->0
    &&& st.guests.len() + (if st.primary is Some { 1int } else { 0int }) == read
}

proof fn lemma_step_keeps_invariant(st: AttendeesState, a: AttendeeForm, se: Option<Seq<char>>, ids: Set<i64>, read: int)
    requires
        run_invariant(st, ids, se, read),
        attendee_step(st, a, se) is Ok,
    ensures
        run_invariant(attendee_step(st, a, se)->Ok_0, ids, se, read + 1),
{
    let next = attendee_step(st, a, se)->Ok_0;
    let phone = phone_outcome(opt_view(a.phone))->Ok_0;
    let view: AttendeeView = (a.rsvp_id, a.email@, Some(a.first_name@), Some(a.last_name@), phone);
    assert(!claims(st.primary, st.guests, a.rsvp_id));
    if a.is_me {
        assert(next.guests == st.guests);
        assert(next.primary == Some(view));
        assert forall|id: i64| ids.contains(id) <==> (next.remaining.contains(id) || claims(next.primary, next.guests, id)) by {
            if id != a.rsvp_id && claims(st.primary, st.guests, id) {
                assert(st.primary is None);
            }
        }
        assert forall|i: int| 0 <= i < next.guests.len() implies #[trigger] next.guests[i].0 != view.0 && next.guests[i].1 != view.1 by {
            if next.guests[i].0 == view.0 {
                assert(claims(st.primary, st.guests, a.rsvp_id));
            }
        }
    } else {
        assert(next.primary == st.primary);
        assert(next.guests == st.guests.push(view));
        assert forall|id: i64| #![trigger claims(next.primary, next.guests, id)]
            claims(next.primary, next.guests, id) <==> (claims(st.primary, st.guests, id) || id == a.rsvp_id) by {
            if claims(st.primary, st.guests, id) && !(st.primary is Some && st.primary.unwrap().0 == id) {
                let i = choose|i: int| 0 <= i < st.guests.len() && #[trigger] st.guests[i].0 == id;
                assert(next.guests[i] == st.guests[i]);
            }
            if id == a.rsvp_id {
                assert(next.guests[st.guests.len() as int].0 == id);
            }
            if claims(next.primary, next.guests, id) && !(next.primary is Some && next.primary.unwrap().0 == id) {
                let i = choose|i: int| 0 <= i < next.guests.len() && #[trigger] next.guests[i].0 == id;
                if i < st.guests.len() {
                    assert(st.guests[i] == next.guests[i]);
                }
            }
        }
        assert forall|i: int, j: int| 0 <= i < j < next.guests.len() implies #[trigger] next.guests[i].0
            != #[trigger] next.guests[j].0 && next.guests[i].1 != next.guests[j].1 by {
            assert(next.guests[i] == st.guests[i]);
            if j < st.guests.len() {
                assert(next.guests[j] == st.guests[j]);
            } else {
                assert(next.guests[j] == view);
                assert(st.emails.contains(st.guests[i].1));
                if st.guests[i].0 == a.rsvp_id {
                    assert(claims(st.primary, st.guests, a.rsvp_id));
                }
            }
        }
        assert forall|i: int| 0 <= i < next.guests.len() implies next.emails.contains(#[trigger] next.guests[i].1)
            && named(next.guests[i]) by {
            if i < st.guests.len() {
                assert(next.guests[i] == st.guests[i]);
            }
        }
    }
}

proof fn lemma_run_keeps_invariant(
    st: AttendeesState,
    attendees: Seq<AttendeeForm>,
    se: Option<Seq<char>>,
    ids: Set<i64>,
    read: int,
)
    requires
        run_invariant(st, ids, se, read),
        attendees_run(st, attendees, se) is Ok,
    ensures
        run_invariant(attendees_run(st, attendees, se)->Ok_0, ids, se, read + attendees.len()),
    decreases attendees.len(),
{
    if attendees.len() > 0 {
        lemma_step_keeps_invariant(st, attendees[0], se, ids, read);
        lemma_run_keeps_invariant(
            attendee_step(st, attendees[0], se)->Ok_0,
            attendees.drop_first(),
            se,
            ids,
            read + 1,
        );
    }
}

/// An accepted attendees form gives each of the session's RSVPs exactly one attendee and
/// no other: every line of the form is one attendee, no RSVP and no email is used twice,
/// both names are always given, and exactly one attendee is the guest themself, who keeps
/// the session user's email when there is a session user.
pub proof fn lemma_accepted_attendees_cover_rsvps(
    session_user: Option<User>,
    rsvps: Seq<EventRsvp>,
    attendees: Seq<AttendeeForm>,
)
    requires
        attendees_outcome(session_user, rsvps, attendees) is Ok,
    ensures
        ({
            let (p, gs) = attendees_outcome(session_user, rsvps, attendees)->Ok_0;
            let ids = rsvps.map_values(|r: EventRsvp| r.rsvp_id).to_set();
            &&& forall|id: i64| ids.contains(id) <==> claims(Some(p), gs, id)
            &&& attendees_distinct(Some(p), gs)
            &&& gs.len() + 1 == attendees.len()
            &&& named(p)
            &&& forall|i: int| 0 <= i < gs.len() ==> named(#[trigger] gs[i])
            &&& session_user is Some ==> p.1 == session_user->0.email@
        }),
{
    let init = initial_state(rsvps);
    let se = session_email(session_user);
    let ids = init.remaining;
    assert(run_invariant(init, ids, se, 0));
    lemma_run_keeps_invariant(init, attendees, se, ids, 0);
    let st = attendees_run(init, attendees, se)->Ok_0;
    let (p, gs) = attendees_outcome(session_user, rsvps, attendees)->Ok_0;
    assert(st.primary == Some(p) && st.guests == gs);
    assert(st.remaining == Set::<i64>::empty());
    assert forall|id: i64| ids.contains(id) <==> claims(Some(p), gs, id) by {
        assert(!st.remaining.contains(id));
    }
    assert forall|i: int| 0 <= i < gs.len() implies named(#[trigger] gs[i]) by {
        assert(st.emails.contains(st.guests[i].1));
    }
}

} // verus!
