//! The bulletin board of user flyers: who may edit what, the admin list's pages, and the
//! flyer form's fields.
use chrono::NaiveDateTime;
use vstd::prelude::*;

use crate::db::event::div_trunc;
use crate::text::{i64_of_str, parse_i64, str_eq};

verus! {

/// Flyers per page of the admin list.
pub const PAGE_SIZE: i64 = 25;

/// The timestamp (microseconds, read as UTC) that `NaiveDateTime::parse_from_str` reads from
/// `s` with format `fmt`, if it reads one.
pub uninterp spec fn naive_datetime_micros(s: Seq<char>, fmt: Seq<char>) -> Option<i64>;

/// Calls `chrono::NaiveDateTime::parse_from_str(s, fmt)` and converts a success with
/// `and_utc().timestamp_micros()`; the result is named `naive_datetime_micros`.
#[verifier::external_body]
fn parse_datetime(s: &str, fmt: &str) -> (r: Option<i64>)
    ensures
        r == naive_datetime_micros(s@, fmt@),
{
    NaiveDateTime::parse_from_str(s, fmt).ok().map(|t| t.and_utc().timestamp_micros())
}

/// The removal time of a flyer form: `YYYY-MM-DDTHH:MM:SS`, or else `YYYY-MM-DDTHH:MM`.
pub fn remove_after_time(v: &str) -> (r: Option<i64>)
    ensures
        r == match naive_datetime_micros(v@, "%Y-%m-%dT%H:%M:%S"@) {
            Some(t) => Some(t),
            None => naive_datetime_micros(v@, "%Y-%m-%dT%H:%M"@),
        },
{
    match parse_datetime(v, "%Y-%m-%dT%H:%M:%S") {
        Some(t) => Some(t),
        None => parse_datetime(v, "%Y-%m-%dT%H:%M"),
    }
}

/// The link of a flyer form: an empty field means no link.
pub fn link_url_field(v: String) -> (r: Option<String>)
    ensures
        match r {
            None => v@.len() == 0,
            Some(s) => v@.len() > 0 && s@ == v@,
        },
{
    if v.as_str().unicode_len() == 0 { None } else { Some(v) }
}

/// The text fields of a flyer form as read so far. The image is read by the caller, who
/// re-encodes it.
#[derive(Clone, Debug)]
pub struct FlyerForm {
    pub link_url: Option<String>,
    pub flyer_name: Option<String>,
    pub remove_after_time: Option<i64>,
    pub x: Option<i64>,
    pub y: Option<i64>,
}

pub open spec fn opt_str(o: Option<String>) -> Option<Seq<char>> {
    match o {
        Some(s) => Some(s@),
        None => None,
    }
}

/// What reading the field `name` with text `value` makes of `form`: each known field
/// replaces its value (an empty link, an unreadable time or position give none); other
/// fields change nothing.
pub open spec fn read_field_spec(form: FlyerForm, name: Seq<char>, value: Seq<char>, after: FlyerForm) -> bool {
    if name == "link_url"@ {
        opt_str(after.link_url) == (if value.len() == 0 { None } else { Some(value) }) && after.flyer_name
            == form.flyer_name && after.remove_after_time == form.remove_after_time && after.x == form.x && after.y
            == form.y
    } else if name == "flyer_name"@ {
        opt_str(after.flyer_name) == Some(value) && after.link_url == form.link_url && after.remove_after_time
            == form.remove_after_time && after.x == form.x && after.y == form.y
    } else if name == "remove_after_time"@ {
        after.remove_after_time == (match naive_datetime_micros(value, "%Y-%m-%dT%H:%M:%S"@) {
            Some(t) => Some(t),
            None => naive_datetime_micros(value, "%Y-%m-%dT%H:%M"@),
        }) && after.link_url == form.link_url && after.flyer_name == form.flyer_name && after.x == form.x
            && after.y == form.y
    } else if name == "x"@ {
        after.x == i64_of_str(value) && after.link_url == form.link_url && after.flyer_name == form.flyer_name
            && after.remove_after_time == form.remove_after_time && after.y == form.y
    } else if name == "y"@ {
        after.y == i64_of_str(value) && after.link_url == form.link_url && after.flyer_name == form.flyer_name
            && after.remove_after_time == form.remove_after_time && after.x == form.x
    } else {
        after == form
    }
}

impl FlyerForm {
    /// A form with nothing read yet.
    pub fn new() -> (form: FlyerForm)
        ensures
            form.link_url is None,
            form.flyer_name is None,
            form.remove_after_time is None,
            form.x is None,
            form.y is None,
    {
        FlyerForm { link_url: None, flyer_name: None, remove_after_time: None, x: None, y: None }
    }

    /// Reads one text field of the form.
    pub fn read_text_field(&mut self, name: &str, value: String)
        ensures
            read_field_spec(*old(self), name@, value@, *final(self)),
    {
        if str_eq(name, "link_url") {
            self.link_url = link_url_field(value);
        } else if str_eq(name, "flyer_name") {
            self.flyer_name = Some(value);
        } else if str_eq(name, "remove_after_time") {
            self.remove_after_time = remove_after_time(value.as_str());
        } else if str_eq(name, "x") {
            self.x = parse_i64(value.as_str());
        } else if str_eq(name, "y") {
            self.y = parse_i64(value.as_str());
        }
    }
}

/// Why a flyer form was refused.
#[derive(Clone, Copy, Debug, PartialEq, Eq)]
pub enum FlyerFormError {
    /// A new flyer needs an image.
    MissingImage,
    /// The removal time is missing or unreadable.
    MissingRemoveAfterTime,
}

/// A flyer to store from a form (the image aside).
#[derive(Clone, Debug)]
pub struct FlyerValues {
    pub x: i64,
    pub y: i64,
    pub link_url: Option<String>,
    pub flyer_name: String,
    pub remove_after_time: i64,
}

/// The values a checked form stores: no name is an empty one, no position is 0.
pub open spec fn flyer_values_of(form: FlyerForm, values: FlyerValues) -> bool {
    &&& values.flyer_name@ == (match form.flyer_name {
        Some(n) => n@,
        None => Seq::<char>::empty(),
    })
    &&& opt_str(values.link_url) == opt_str(form.link_url)
    &&& form.remove_after_time == Some(values.remove_after_time)
    &&& values.x == (match form.x {
        Some(x) => x,
        None => 0,
    })
    &&& values.y == (match form.y {
        Some(y) => y,
        None => 0,
    })
}

/// Checks a flyer form: a new flyer needs an image, and every flyer a removal time.
pub fn flyer_values(form: FlyerForm, is_new: bool, has_image: bool) -> (r: Result<FlyerValues, FlyerFormError>)
    ensures
        match r {
            Ok(v) => !(is_new && !has_image) && flyer_values_of(form, v),
            Err(e) => if is_new && !has_image {
                e == FlyerFormError::MissingImage
            } else {
                form.remove_after_time is None && e == FlyerFormError::MissingRemoveAfterTime
            },
        },
{
    if is_new && !has_image {
        return Err(FlyerFormError::MissingImage);
    }
    let remove_after_time = match form.remove_after_time {
        Some(t) => t,
        None => {
            return Err(FlyerFormError::MissingRemoveAfterTime);
        },
    };
    let flyer_name = match form.flyer_name {
        Some(n) => n,
        None => String::new(),
    };
    let x = match form.x {
        Some(x) => x,
        None => 0,
    };
    let y = match form.y {
        Some(y) => y,
        None => 0,
    };
    Ok(FlyerValues { x, y, link_url: form.link_url, flyer_name, remove_after_time })
}

/// Which flyers an edit may change.
#[derive(Clone, Copy, Debug, PartialEq, Eq)]
pub enum FlyerScope {
    /// Any flyer with the id.
    Any,
    /// Only a flyer of the editing user.
    Own,
}

/// Admins edit any flyer, other users only their own.
pub fn edit_scope(is_admin: bool) -> (r: FlyerScope)
    ensures
        r == (if is_admin { FlyerScope::Any } else { FlyerScope::Own }),
{
    if is_admin { FlyerScope::Any } else { FlyerScope::Own }
}

/// Whether a viewer may edit a flyer owned by `owner`: admins edit every flyer, other
/// users their own, visitors none.
pub fn editable_by(viewer: Option<i64>, is_admin: bool, owner: i64) -> (r: bool)
    ensures
        r == match viewer {
            None => false,
            Some(id) => is_admin || id == owner,
        },
{
    match viewer {
        None => false,
        Some(id) => is_admin || id == owner,
    }
}

/// The page of the admin list asked for (at least 1) and the number of flyers before it.
pub fn admin_page(page: Option<i64>) -> (r: (i64, i64))
    requires
        page is Some ==> page->0 <= i64::MAX / PAGE_SIZE,
    ensures
        r.0 == (match page {
            Some(p) => if p >= 1 { p } else { 1 },
            None => 1,
        }),
        r.1 == (r.0 - 1) * PAGE_SIZE,
{
    let page = match page {
        Some(p) => if p >= 1 { p } else { 1 },
        None => 1,
    };
    (page, (page - 1) * PAGE_SIZE)
}

/// The number of pages of the admin list for `total` flyers.
pub fn total_pages(total: i64) -> (r: i64)
    requires
        total <= i64::MAX - PAGE_SIZE,
    ensures
        r == div_trunc(total + PAGE_SIZE - 1, PAGE_SIZE as int),
        total >= 0 ==> r * PAGE_SIZE >= total && (r == 0 || (r - 1) * PAGE_SIZE < total),
{
    (total + PAGE_SIZE - 1) / PAGE_SIZE
}

} // verus!
