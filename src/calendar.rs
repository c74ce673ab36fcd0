//! Calendar dates through chrono: reading `YYYY-MM-DD`, writing it back,
//! and the current local date. Dates are held as day numbers, so ordering
//! and day arithmetic stay in verified code.
use vstd::prelude::*;
use chrono::Datelike;
use crate::syntax::Date;

verus! {

/// The day number that chrono reads from the text `s` in the format
/// `YYYY-MM-DD`, or none when it rejects the text.
pub uninterp spec fn parsed_date(s: Seq<char>) -> Option<int>;

/// The `YYYY-MM-DD` text that chrono writes for a day number, or none when
/// the day lies outside chrono's range of dates.
pub uninterp spec fn date_text(days: int) -> Option<Seq<char>>;

/// Relies on chrono's `NaiveDate::parse_from_str` with the format `%Y-%m-%d`,
/// and `Datelike::num_days_from_ce` to turn the date into its day number.
#[verifier::external_body]
pub(crate) fn parse_date(s: &str) -> (r: Option<Date>)
    ensures
        r.is_some() == parsed_date(s@).is_some(),
        r matches Some(d) ==> d.days == parsed_date(s@).unwrap(),
{
    match chrono::NaiveDate::parse_from_str(s, "%Y-%m-%d") {
        Ok(d) => Some(Date { days: d.num_days_from_ce() }),
        Err(_) => None,
    }
}

/// Relies on chrono's `NaiveDate::from_num_days_from_ce_opt` and its
/// formatting with `%Y-%m-%d`.
#[verifier::external_body]
pub(crate) fn format_date(d: Date) -> (r: Option<String>)
    ensures
        r.is_some() == date_text(d.days as int).is_some(),
        r matches Some(s) ==> s@ == date_text(d.days as int).unwrap(),
{
    match chrono::NaiveDate::from_num_days_from_ce_opt(d.days) {
        Some(n) => Some(n.format("%Y-%m-%d").to_string()),
        None => None,
    }
}

/// Relies on chrono's `Local::now`, read as the local calendar date's day
/// number. Nothing is known of the value: it depends on the clock.
#[verifier::external_body]
pub fn local_today() -> (r: Date) {
    Date { days: chrono::Local::now().date_naive().num_days_from_ce() }
}

} // verus!
