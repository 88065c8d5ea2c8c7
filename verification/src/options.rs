//! Which day of which month is asked for.

use chrono::{Datelike, Local};
use vstd::prelude::*;

verus! {

/// The day and the month that were asked for; 0 stands for today's.
#[derive(Clone, Copy, Debug, PartialEq, Eq, Structural)]
pub struct Opts {
    pub day: u32,
    pub month: u32,
}

/// The day and month to query: those of `opts`, with today's day in place of
/// a day 0 and today's month in place of a month 0.
pub open spec fn with_today(opts: Opts, today_day: u32, today_month: u32) -> (u32, u32) {
    (
        if opts.day == 0 {
            today_day
        } else {
            opts.day
        },
        if opts.month == 0 {
            today_month
        } else {
            opts.month
        },
    )
}

/// Puts today's day and month in place of what `opts` leaves open.
pub fn fill_in_today(opts: Opts, today_day: u32, today_month: u32) -> (chosen: (u32, u32))
    ensures
        chosen == with_today(opts, today_day, today_month),
{
    match (opts.day, opts.month) {
        (0, 0) => (today_day, today_month),
        (0, month) => (today_day, month),
        (day, 0) => (day, today_month),
        (day, month) => (day, month),
    }
}

/// Reads the clock with `chrono::Local::now` and takes the day of the month
/// and the month from it with `Datelike::day` and `Datelike::month`. Trusted:
/// the day lies between 1 and 31, the month between 1 and 12.
#[verifier::external_body]
fn today() -> (today: (u32, u32))
    ensures
        1 <= today.0 <= 31,
        1 <= today.1 <= 12,
{
    let now = Local::now();
    (now.day(), now.month())
}

/// The day and month to query: those of `opts`, with today's day in place of
/// a day 0 and today's month in place of a month 0.
pub fn handle_cli_opt(opts: Opts) -> (chosen: (u32, u32))
    ensures
        exists|day: u32, month: u32|
            1 <= day <= 31 && 1 <= month <= 12 && chosen == #[trigger] with_today(opts, day, month),
{
    let (day, month) = today();
    fill_in_today(opts, day, month)
}

} // verus!
