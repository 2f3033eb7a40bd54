//! Update history records. This source deliberately stays out of the
//! canonical report: a failure here degrades to an empty contribution and
//! never fails a collection pass.

use crate::date::{valid_date, Date};
use crate::numtext::{dec_val, digits_in, parse_digits_u32};
use crate::text::{all_ws, is_blank, opt_view, str_to_chars};
use vstd::prelude::*;

verus! {

/// One installed update.
#[derive(Debug, Clone, PartialEq)]
pub struct WindowsUpdate {
    /// Update identifier; never blank
    pub hotfix_id: String,
    /// Description, when present and non-empty
    pub description: Option<String>,
    /// Installation date, when present and parsable
    pub installed_on: Option<Date>,
    /// Installing user, when present and non-empty
    pub installed_by: Option<String>,
}

/// The date parsed from update query text, which comes in one of three
/// shapes: month/day/year, year-month-day, or eight bare digits.
pub open spec fn wmi_date_of(s: Seq<char>) -> Option<Date> {
    if s.len() == 10 && s[2] == '/' && s[5] == '/' && digits_in(s, 0, 2) && digits_in(s, 3, 5)
        && digits_in(s, 6, 10) {
        date_if_valid(dec_val(s.subrange(6, 10)), dec_val(s.subrange(0, 2)), dec_val(s.subrange(3, 5)))
    } else if s.len() == 10 && s[4] == '-' && s[7] == '-' && digits_in(s, 0, 4) && digits_in(s, 5, 7)
        && digits_in(s, 8, 10) {
        date_if_valid(dec_val(s.subrange(0, 4)), dec_val(s.subrange(5, 7)), dec_val(s.subrange(8, 10)))
    } else if s.len() == 8 && digits_in(s, 0, 8) {
        date_if_valid(dec_val(s.subrange(0, 4)), dec_val(s.subrange(4, 6)), dec_val(s.subrange(6, 8)))
    } else {
        None
    }
}

/// The date, when the parts form one.
pub open spec fn date_if_valid(y: int, m: int, d: int) -> Option<Date> {
    if valid_date(y, m, d) {
        Some(Date { year: y as u32, month: m as u32, day: d as u32 })
    } else {
        None
    }
}

/// Parses a date from update query text.
pub fn parse_wmi_date(s: &str) -> (r: Option<Date>)
    ensures
        r == wmi_date_of(s@),
{
    let cs = str_to_chars(s);
    if cs.len() == 10 && cs[2] == '/' && cs[5] == '/' {
        let m = match parse_digits_u32(&cs, 0, 2) {
            Some(v) => v,
            None => {
                return None;
            },
        };
        let d = match parse_digits_u32(&cs, 3, 5) {
            Some(v) => v,
            None => {
                return None;
            },
        };
        let y = match parse_digits_u32(&cs, 6, 10) {
            Some(v) => v,
            None => {
                return None;
            },
        };
        Date::from_ymd_opt(y, m, d)
    } else if cs.len() == 10 && cs[4] == '-' && cs[7] == '-' {
        let y = match parse_digits_u32(&cs, 0, 4) {
            Some(v) => v,
            None => {
                return None;
            },
        };
        let m = match parse_digits_u32(&cs, 5, 7) {
            Some(v) => v,
            None => {
                return None;
            },
        };
        let d = match parse_digits_u32(&cs, 8, 10) {
            Some(v) => v,
            None => {
                return None;
            },
        };
        Date::from_ymd_opt(y, m, d)
    } else if cs.len() == 8 {
        let y = match parse_digits_u32(&cs, 0, 4) {
            Some(v) => v,
            None => {
                return None;
            },
        };
        let m = match parse_digits_u32(&cs, 4, 6) {
            Some(v) => v,
            None => {
                return None;
            },
        };
        let d = match parse_digits_u32(&cs, 6, 8) {
            Some(v) => v,
            None => {
                return None;
            },
        };
        Date::from_ymd_opt(y, m, d)
    } else {
        None
    }
}

/// An optional text filtered of empty values.
pub open spec fn nonempty_view(o: Option<String>) -> Option<Seq<char>> {
    match o {
        Some(s) => if s@.len() == 0 {
            None
        } else {
            Some(s@)
        },
        None => None,
    }
}

impl WindowsUpdate {
    /// Builds one update record from a raw query row. Rows without a
    /// usable identifier yield nothing; empty texts and unparsable dates
    /// are dropped rather than failing the row.
    pub fn from_query_row(
        hotfix_id: Option<String>,
        description: Option<String>,
        installed_on: Option<String>,
        installed_by: Option<String>,
    ) -> (r: Option<WindowsUpdate>)
        ensures
            r is None <==> (hotfix_id is None || all_ws(hotfix_id.unwrap()@)),
            r matches Some(u) ==> {
                &&& hotfix_id matches Some(h) && u.hotfix_id@ == h@
                &&& opt_view(u.description) == nonempty_view(description)
                &&& u.installed_on == (match installed_on {
                    Some(t) => wmi_date_of(t@),
                    None => None::<Date>,
                })
                &&& opt_view(u.installed_by) == nonempty_view(installed_by)
            },
    {
        let id = match hotfix_id {
            Some(h) => h,
            None => {
                return None;
            },
        };
        if is_blank(id.as_str()) {
            return None;
        }
        let installed_on = match &installed_on {
            Some(t) => parse_wmi_date(t.as_str()),
            None => None,
        };
        Some(
            WindowsUpdate {
                hotfix_id: id,
                description: drop_empty(description),
                installed_on,
                installed_by: drop_empty(installed_by),
            },
        )
    }
}

/// Drops an empty text.
fn drop_empty(o: Option<String>) -> (r: Option<String>)
    ensures
        opt_view(r) == nonempty_view(o),
{
    match o {
        Some(s) => {
            if s.as_str().unicode_len() == 0 {
                None
            } else {
                Some(s)
            }
        },
        None => None,
    }
}

} // verus!
