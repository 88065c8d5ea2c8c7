//! Daily extrema of a record of readings and their averages over the years.

use crate::calendar::{CalendarDate, MAX_YEAR, MIN_YEAR};
use crate::data_access::TemperatureMeasurement;
use vstd::prelude::*;
use vstd::seq_lib::{to_multiset_contains, to_multiset_len};

verus! {

/// `year` is the earliest year in which any of `records` was taken.
pub open spec fn is_first_year(records: Seq<TemperatureMeasurement>, year: int) -> bool {
    &&& exists|r: TemperatureMeasurement| #[trigger] records.contains(r) && r.year_taken() == year
    &&& forall|r: TemperatureMeasurement| #[trigger] records.contains(r) ==> year <= r.year_taken()
}

/// `year` is the latest year in which any of `records` was taken.
pub open spec fn is_last_year(records: Seq<TemperatureMeasurement>, year: int) -> bool {
    &&& exists|r: TemperatureMeasurement| #[trigger] records.contains(r) && r.year_taken() == year
    &&& forall|r: TemperatureMeasurement| #[trigger] records.contains(r) ==> r.year_taken() <= year
}

/// The earliest year of `records`; 0 for an empty record.
pub open spec fn first_year(records: Seq<TemperatureMeasurement>) -> int {
    if records.len() == 0 {
        0
    } else {
        choose|year: int| is_first_year(records, year)
    }
}

/// The latest year of `records`; 0 for an empty record.
pub open spec fn last_year(records: Seq<TemperatureMeasurement>) -> int {
    if records.len() == 0 {
        0
    } else {
        choose|year: int| is_last_year(records, year)
    }
}

/// At most one year is the earliest.
pub proof fn lemma_first_year_unique(records: Seq<TemperatureMeasurement>, a: int, b: int)
    requires
        is_first_year(records, a),
        is_first_year(records, b),
    ensures
        a == b,
{
}

/// At most one year is the latest.
pub proof fn lemma_last_year_unique(records: Seq<TemperatureMeasurement>, a: int, b: int)
    requires
        is_last_year(records, a),
        is_last_year(records, b),
    ensures
        a == b,
{
}

/// The range of years that `records` spans: the earliest and the latest year
/// in which any of them was taken, or (0, 0) where there are none.
pub fn get_min_max_year(records: &[TemperatureMeasurement]) -> (extent: (i32, i32))
    ensures
        extent.0 == first_year(records@),
        extent.1 == last_year(records@),
        records@.len() == 0 ==> extent == (0i32, 0i32),
        records@.len() > 0 ==> is_first_year(records@, extent.0 as int) && is_last_year(
            records@,
            extent.1 as int,
        ) && MIN_YEAR <= extent.0 <= extent.1 <= MAX_YEAR,
{
    if records.len() == 0 {
        return (0, 0);
    }
    let mut min_year: i32 = records[0].timestamp().year();
    let mut max_year: i32 = min_year;
    assert(records@.contains(records@[0]));
    let mut i: usize = 1;
    while i < records.len()
        invariant
            1 <= i <= records.len(),
            MIN_YEAR <= min_year <= max_year <= MAX_YEAR,
            exists|r: TemperatureMeasurement| #[trigger]
                records@.contains(r) && r.year_taken() == min_year,
            exists|r: TemperatureMeasurement| #[trigger]
                records@.contains(r) && r.year_taken() == max_year,
            forall|k: int| 0 <= k < i ==> min_year <= (#[trigger] records@[k]).year_taken() <= max_year,
        decreases records.len() - i,
    {
        let year = records[i].timestamp().year();
        assert(records@.contains(records@[i as int]));
        if year < min_year {
            min_year = year;
        }
        if year > max_year {
            max_year = year;
        }
        i += 1;
    }
    proof {
        assert forall|r: TemperatureMeasurement| #[trigger] records@.contains(r) implies min_year
            <= r.year_taken() <= max_year by {
            let k = choose|k: int| 0 <= k < records@.len() && records@[k] == r;
            assert(min_year <= records@[k].year_taken() <= max_year);
        }
        assert(is_first_year(records@, min_year as int));
        assert(is_last_year(records@, max_year as int));
        lemma_first_year_unique(records@, min_year as int, first_year(records@));
        lemma_last_year_unique(records@, max_year as int, last_year(records@));
    }
    (min_year, max_year)
}

/// Some reading of `records` was taken on `date`.
pub open spec fn has_reading_on(records: Seq<TemperatureMeasurement>, date: CalendarDate) -> bool {
    exists|r: TemperatureMeasurement| #[trigger] records.contains(r) && r.day_taken() == date
}

/// `t` is the lowest temperature among the readings of `records` taken on `date`.
pub open spec fn is_daily_min(
    records: Seq<TemperatureMeasurement>,
    date: CalendarDate,
    t: int,
) -> bool {
    &&& exists|r: TemperatureMeasurement| #[trigger]
        records.contains(r) && r.day_taken() == date && r.spec_temperature() == t
    &&& forall|r: TemperatureMeasurement| #[trigger]
        records.contains(r) && r.day_taken() == date ==> t <= r.spec_temperature()
}

/// `t` is the highest temperature among the readings of `records` taken on `date`.
pub open spec fn is_daily_max(
    records: Seq<TemperatureMeasurement>,
    date: CalendarDate,
    t: int,
) -> bool {
    &&& exists|r: TemperatureMeasurement| #[trigger]
        records.contains(r) && r.day_taken() == date && r.spec_temperature() == t
    &&& forall|r: TemperatureMeasurement| #[trigger]
        records.contains(r) && r.day_taken() == date ==> r.spec_temperature() <= t
}

/// The lowest temperature of `date`; meaningful where `date` has a reading.
pub open spec fn daily_min(records: Seq<TemperatureMeasurement>, date: CalendarDate) -> int {
    choose|t: int| is_daily_min(records, date, t)
}

/// The highest temperature of `date`; meaningful where `date` has a reading.
pub open spec fn daily_max(records: Seq<TemperatureMeasurement>, date: CalendarDate) -> int {
    choose|t: int| is_daily_max(records, date, t)
}

/// At most one temperature is the lowest of a day.
pub proof fn lemma_daily_min_unique(
    records: Seq<TemperatureMeasurement>,
    date: CalendarDate,
    a: int,
    b: int,
)
    requires
        is_daily_min(records, date, a),
        is_daily_min(records, date, b),
    ensures
        a == b,
{
}

/// At most one temperature is the highest of a day.
pub proof fn lemma_daily_max_unique(
    records: Seq<TemperatureMeasurement>,
    date: CalendarDate,
    a: int,
    b: int,
)
    requires
        is_daily_max(records, date, a),
        is_daily_max(records, date, b),
    ensures
        a == b,
{
}

/// The lowest and the highest temperature among the readings taken on `date`,
/// whatever their hour; both absent where no reading was taken on that day.
/// `date` need not name a day that exists: one that does not has no reading.
pub fn get_min_max_temp_at_date(records: &[TemperatureMeasurement], date: CalendarDate) -> (found: (
    Option<i32>,
    Option<i32>,
))
    ensures
        found.0 is Some <==> found.1 is Some,
        found.0 is Some <==> has_reading_on(records@, date),
        found.0 matches Some(lo) ==> lo == daily_min(records@, date) && is_daily_min(
            records@,
            date,
            lo as int,
        ),
        found.1 matches Some(hi) ==> hi == daily_max(records@, date) && is_daily_max(
            records@,
            date,
            hi as int,
        ),
{
    let mut lowest: Option<i32> = None;
    let mut highest: Option<i32> = None;
    let mut i: usize = 0;
    while i < records.len()
        invariant
            i <= records.len(),
            lowest is Some <==> highest is Some,
            lowest is None ==> forall|k: int|
                0 <= k < i ==> (#[trigger] records@[k]).day_taken() != date,
            lowest matches Some(lo) ==> {
                &&& exists|r: TemperatureMeasurement| #[trigger]
                    records@.contains(r) && r.day_taken() == date && r.spec_temperature() == lo
                &&& forall|k: int|
                    0 <= k < i && (#[trigger] records@[k]).day_taken() == date ==> lo
                        <= records@[k].spec_temperature()
            },
            highest matches Some(hi) ==> {
                &&& exists|r: TemperatureMeasurement| #[trigger]
                    records@.contains(r) && r.day_taken() == date && r.spec_temperature() == hi
                &&& forall|k: int|
                    0 <= k < i && (#[trigger] records@[k]).day_taken() == date
                        ==> records@[k].spec_temperature() <= hi
            },
        decreases records.len() - i,
    {
        let reading = &records[i];
        assert(records@.contains(records@[i as int]));
        if reading.timestamp().date() == date {
            let t = reading.temperature();
            lowest =
            match lowest {
                Some(lo) if lo <= t => Some(lo),
                _ => Some(t),
            };
            highest =
            match highest {
                Some(hi) if hi >= t => Some(hi),
                _ => Some(t),
            };
        }
        i += 1;
    }
    proof {
        assert forall|r: TemperatureMeasurement| #[trigger]
            records@.contains(r) && r.day_taken() == date implies (lowest matches Some(lo) && lo
            <= r.spec_temperature()) && (highest matches Some(hi) && r.spec_temperature() <= hi) by {
            let k = choose|k: int| 0 <= k < records@.len() && records@[k] == r;
            assert(records@[k].day_taken() == date);
        }
        if let Some(lo) = lowest {
            assert(is_daily_min(records@, date, lo as int));
            lemma_daily_min_unique(records@, date, lo as int, daily_min(records@, date));
        }
        if let Some(hi) = highest {
            assert(is_daily_max(records@, date, hi as int));
            lemma_daily_max_unique(records@, date, hi as int, daily_max(records@, date));
        }
    }
    (lowest, highest)
}

/// The day `day` of month `month` in `year`.
pub open spec fn day_in_year(year: int, month: u32, day: u32) -> CalendarDate {
    CalendarDate { year: year as i32, month, day }
}

/// How many of the years `from` to `to`, both included, have a reading on
/// the day `day` of month `month`.
pub open spec fn years_with_data(
    records: Seq<TemperatureMeasurement>,
    day: u32,
    month: u32,
    from: int,
    to: int,
) -> nat
    decreases to - from + 1,
{
    if to < from {
        0
    } else {
        let before = years_with_data(records, day, month, from, to - 1);
        if has_reading_on(records, day_in_year(to, month, day)) {
            before + 1
        } else {
            before
        }
    }
}

/// The sum, over those of the years `from` to `to` that have a reading on the
/// day `day` of month `month`, of that day's lowest temperature.
pub open spec fn min_total(
    records: Seq<TemperatureMeasurement>,
    day: u32,
    month: u32,
    from: int,
    to: int,
) -> int
    decreases to - from + 1,
{
    if to < from {
        0
    } else {
        let before = min_total(records, day, month, from, to - 1);
        if has_reading_on(records, day_in_year(to, month, day)) {
            before + daily_min(records, day_in_year(to, month, day))
        } else {
            before
        }
    }
}

/// The sum, over those of the years `from` to `to` that have a reading on the
/// day `day` of month `month`, of that day's highest temperature.
pub open spec fn max_total(
    records: Seq<TemperatureMeasurement>,
    day: u32,
    month: u32,
    from: int,
    to: int,
) -> int
    decreases to - from + 1,
{
    if to < from {
        0
    } else {
        let before = max_total(records, day, month, from, to - 1);
        if has_reading_on(records, day_in_year(to, month, day)) {
            before + daily_max(records, day_in_year(to, month, day))
        } else {
            before
        }
    }
}

/// How many of the years `from` to `to`, both included, have no reading on
/// the day `day` of month `month`.
pub open spec fn skipped_years(
    records: Seq<TemperatureMeasurement>,
    day: u32,
    month: u32,
    from: int,
    to: int,
) -> nat
    decreases to - from + 1,
{
    if to < from {
        0
    } else {
        let before = skipped_years(records, day, month, from, to - 1);
        if has_reading_on(records, day_in_year(to, month, day)) {
            before
        } else {
            before + 1
        }
    }
}

/// The years that count are the years of the range less the years skipped.
pub proof fn lemma_years_with_data_and_skipped(
    records: Seq<TemperatureMeasurement>,
    day: u32,
    month: u32,
    from: int,
    to: int,
)
    requires
        from <= to + 1,
    ensures
        years_with_data(records, day, month, from, to) == (to - from + 1) - skipped_years(
            records,
            day,
            month,
            from,
            to,
        ),
    decreases to - from + 1,
{
    if to >= from {
        lemma_years_with_data_and_skipped(records, day, month, from, to - 1);
    }
}

/// The number of years, within the span of `records`, that have a reading on
/// the day `day` of month `month`: the span's length less the years skipped.
pub open spec fn effective_years(records: Seq<TemperatureMeasurement>, day: u32, month: u32) -> nat {
    years_with_data(records, day, month, first_year(records), last_year(records))
}

/// The averages of a day's extrema over the years, each kept exact as a sum
/// and the number of years it was taken over: the average of the daily minima
/// is `min_total / years`, that of the daily maxima `max_total / years`, in
/// thousandths of a degree.
#[derive(Clone, Copy, Debug, PartialEq, Eq, Structural)]
pub struct AverageTemperatures {
    /// Sum of the daily minima, one for each year that has data.
    pub min_total: i64,
    /// Sum of the daily maxima, one for each year that has data.
    pub max_total: i64,
    /// Number of years that have data; never 0.
    pub years: u32,
}

/// Why no average could be given.
#[derive(Clone, Copy, Debug, PartialEq, Eq, Structural)]
pub enum AverageError {
    /// No year within the span of the record has a reading on the day asked for.
    NoYearsWithData,
}

/// What `get_average_temperatures` returns for `records`, `day` and `month`.
pub open spec fn average_of(records: Seq<TemperatureMeasurement>, day: u32, month: u32) -> Result<
    (int, int, int),
    AverageError,
> {
    if effective_years(records, day, month) == 0 {
        Err(AverageError::NoYearsWithData)
    } else {
        Ok(
            (
                min_total(records, day, month, first_year(records), last_year(records)),
                max_total(records, day, month, first_year(records), last_year(records)),
                effective_years(records, day, month) as int,
            ),
        )
    }
}

/// The averages, over every year that `records` spans, of the lowest and of
/// the highest temperature on the day `day` of month `month`. A year without
/// a reading on that day is skipped and counts for nothing; where every year
/// is skipped, or `records` is empty, there is no average.
pub fn get_average_temperatures(records: &[TemperatureMeasurement], day: u32, month: u32) -> (averages:
    Result<AverageTemperatures, AverageError>)
    ensures
        match averages {
            Ok(found) => average_of(records@, day, month) == Ok::<(int, int, int), AverageError>(
                (found.min_total as int, found.max_total as int, found.years as int),
            ),
            Err(e) => average_of(records@, day, month) == Err::<(int, int, int), AverageError>(e),
        },
{
    let (min_year, max_year) = get_min_max_year(records);
    let mut min_sum: i64 = 0;
    let mut max_sum: i64 = 0;
    let mut years: u32 = 0;
    let mut year: i32 = min_year;
    while year <= max_year
        invariant
            MIN_YEAR <= min_year <= max_year <= MAX_YEAR,
            min_year <= year <= max_year + 1,
            min_year == first_year(records@),
            max_year == last_year(records@),
            years == years_with_data(records@, day, month, min_year as int, year - 1),
            min_sum == min_total(records@, day, month, min_year as int, year - 1),
            max_sum == max_total(records@, day, month, min_year as int, year - 1),
            years <= year - min_year,
            -0x8000_0000 * years <= min_sum <= 0x8000_0000 * years,
            -0x8000_0000 * years <= max_sum <= 0x8000_0000 * years,
        decreases max_year - year + 1,
    {
        let found = get_min_max_temp_at_date(records, CalendarDate::new(year, month, day));
        match found {
            (Some(lo), Some(hi)) => {
                min_sum += lo as i64;
                max_sum += hi as i64;
                years += 1;
            },
            (None, None) => {},
            _ => {
                assert(false);
                vstd::pervasive::unreached()
            },
        }
        year += 1;
    }
    if years == 0 {
        Err(AverageError::NoYearsWithData)
    } else {
        Ok(AverageTemperatures { min_total: min_sum, max_total: max_sum, years })
    }
}

/// Among the first `n` of `records`, if any is selected, one selected
/// reading has the least key of all selected ones.
proof fn lemma_least_selected(
    records: Seq<TemperatureMeasurement>,
    n: int,
    selected: spec_fn(TemperatureMeasurement) -> bool,
    key: spec_fn(TemperatureMeasurement) -> int,
) -> (j: int)
    requires
        0 <= n <= records.len(),
        exists|k: int| 0 <= k < n && selected(#[trigger] records[k]),
    ensures
        0 <= j < n,
        selected(records[j]),
        forall|k: int| 0 <= k < n && selected(#[trigger] records[k]) ==> key(records[j]) <= key(records[k]),
    decreases n,
{
    if exists|k: int| 0 <= k < n - 1 && selected(#[trigger] records[k]) {
        let j = lemma_least_selected(records, n - 1, selected, key);
        if selected(records[n - 1]) && key(records[n - 1]) < key(records[j]) {
            n - 1
        } else {
            j
        }
    } else {
        n - 1
    }
}

/// A record that is not empty has an earliest year, and `first_year` is it.
pub proof fn lemma_first_year_exists(records: Seq<TemperatureMeasurement>)
    requires
        records.len() > 0,
    ensures
        is_first_year(records, first_year(records)),
{
    let selected = |r: TemperatureMeasurement| true;
    let key = |r: TemperatureMeasurement| r.year_taken();
    assert(selected(records[0]));
    let j = lemma_least_selected(records, records.len() as int, selected, key);
    assert(records.contains(records[j]));
    assert forall|r: TemperatureMeasurement| #[trigger] records.contains(r) implies records[j].year_taken()
        <= r.year_taken() by {
        let k = choose|k: int| 0 <= k < records.len() && records[k] == r;
        assert(selected(records[k]));
    }
    assert(is_first_year(records, records[j].year_taken()));
}

/// A record that is not empty has a latest year, and `last_year` is it.
pub proof fn lemma_last_year_exists(records: Seq<TemperatureMeasurement>)
    requires
        records.len() > 0,
    ensures
        is_last_year(records, last_year(records)),
{
    let selected = |r: TemperatureMeasurement| true;
    let key = |r: TemperatureMeasurement| -r.year_taken();
    assert(selected(records[0]));
    let j = lemma_least_selected(records, records.len() as int, selected, key);
    assert(records.contains(records[j]));
    assert forall|r: TemperatureMeasurement| #[trigger] records.contains(r) implies r.year_taken()
        <= records[j].year_taken() by {
        let k = choose|k: int| 0 <= k < records.len() && records[k] == r;
        assert(selected(records[k]));
    }
    assert(is_last_year(records, records[j].year_taken()));
}

/// A day with a reading has a lowest and a highest temperature, and
/// `daily_min` and `daily_max` are these.
pub proof fn lemma_daily_extrema_exist(records: Seq<TemperatureMeasurement>, date: CalendarDate)
    requires
        has_reading_on(records, date),
    ensures
        is_daily_min(records, date, daily_min(records, date)),
        is_daily_max(records, date, daily_max(records, date)),
        daily_min(records, date) <= daily_max(records, date),
{
    let witness = choose|r: TemperatureMeasurement| #[trigger]
        records.contains(r) && r.day_taken() == date;
    let w = choose|k: int| 0 <= k < records.len() && records[k] == witness;
    let selected = |r: TemperatureMeasurement| r.day_taken() == date;
    let low_key = |r: TemperatureMeasurement| r.spec_temperature() as int;
    let high_key = |r: TemperatureMeasurement| -(r.spec_temperature() as int);
    assert(selected(records[w]));
    let lo = lemma_least_selected(records, records.len() as int, selected, low_key);
    let hi = lemma_least_selected(records, records.len() as int, selected, high_key);
    assert(records.contains(records[lo]));
    assert(records.contains(records[hi]));
    assert forall|r: TemperatureMeasurement| #[trigger]
        records.contains(r) && r.day_taken() == date implies records[lo].spec_temperature()
        <= r.spec_temperature() <= records[hi].spec_temperature() by {
        let k = choose|k: int| 0 <= k < records.len() && records[k] == r;
        assert(selected(records[k]));
    }
    assert(is_daily_min(records, date, records[lo].spec_temperature() as int));
    assert(is_daily_max(records, date, records[hi].spec_temperature() as int));
}

/// Two records that hold the same readings, in whatever order, hold the same
/// readings as far as `contains` can tell.
proof fn lemma_same_readings(a: Seq<TemperatureMeasurement>, b: Seq<TemperatureMeasurement>)
    requires
        a.to_multiset() == b.to_multiset(),
    ensures
        a.len() == b.len(),
        forall|r: TemperatureMeasurement| a.contains(r) <==> b.contains(r),
{
    to_multiset_len(a);
    to_multiset_len(b);
    assert forall|r: TemperatureMeasurement| a.contains(r) <==> b.contains(r) by {
        to_multiset_contains(a, r);
        to_multiset_contains(b, r);
    }
}

/// The span of years does not depend on the order of the readings.
pub proof fn lemma_year_extent_order_independent(
    a: Seq<TemperatureMeasurement>,
    b: Seq<TemperatureMeasurement>,
)
    requires
        a.to_multiset() == b.to_multiset(),
    ensures
        first_year(a) == first_year(b),
        last_year(a) == last_year(b),
{
    lemma_same_readings(a, b);
    if a.len() > 0 {
        lemma_first_year_exists(a);
        lemma_first_year_exists(b);
        lemma_last_year_exists(a);
        lemma_last_year_exists(b);
        assert(is_first_year(b, first_year(a)));
        assert(is_last_year(b, last_year(a)));
        lemma_first_year_unique(b, first_year(a), first_year(b));
        lemma_last_year_unique(b, last_year(a), last_year(b));
    }
}

/// Whether a day has a reading, and its extrema if it has, do not depend on
/// the order of the readings.
pub proof fn lemma_daily_extrema_order_independent(
    a: Seq<TemperatureMeasurement>,
    b: Seq<TemperatureMeasurement>,
    date: CalendarDate,
)
    requires
        a.to_multiset() == b.to_multiset(),
    ensures
        has_reading_on(a, date) == has_reading_on(b, date),
        has_reading_on(a, date) ==> daily_min(a, date) == daily_min(b, date) && daily_max(a, date)
            == daily_max(b, date),
{
    lemma_same_readings(a, b);
    if has_reading_on(a, date) {
        let r = choose|r: TemperatureMeasurement| #[trigger] a.contains(r) && r.day_taken() == date;
        assert(b.contains(r));
        lemma_daily_extrema_exist(a, date);
        lemma_daily_extrema_exist(b, date);
        assert(is_daily_min(b, date, daily_min(a, date)));
        assert(is_daily_max(b, date, daily_max(a, date)));
        lemma_daily_min_unique(b, date, daily_min(a, date), daily_min(b, date));
        lemma_daily_max_unique(b, date, daily_max(a, date), daily_max(b, date));
    } else if has_reading_on(b, date) {
        let r = choose|r: TemperatureMeasurement| #[trigger] b.contains(r) && r.day_taken() == date;
        assert(a.contains(r));
    }
}

/// The sums and the count over a range of years do not depend on the order
/// of the readings.
proof fn lemma_totals_order_independent(
    a: Seq<TemperatureMeasurement>,
    b: Seq<TemperatureMeasurement>,
    day: u32,
    month: u32,
    from: int,
    to: int,
)
    requires
        a.to_multiset() == b.to_multiset(),
    ensures
        years_with_data(a, day, month, from, to) == years_with_data(b, day, month, from, to),
        min_total(a, day, month, from, to) == min_total(b, day, month, from, to),
        max_total(a, day, month, from, to) == max_total(b, day, month, from, to),
    decreases to - from + 1,
{
    if to >= from {
        lemma_totals_order_independent(a, b, day, month, from, to - 1);
        lemma_daily_extrema_order_independent(a, b, day_in_year(to, month, day));
    }
}

/// Reordering the readings changes nothing in what
/// `get_average_temperatures` returns: neither the sums, nor the number of
/// years, nor whether there is an average at all.
pub proof fn lemma_average_order_independent(
    a: Seq<TemperatureMeasurement>,
    b: Seq<TemperatureMeasurement>,
    day: u32,
    month: u32,
)
    requires
        a.to_multiset() == b.to_multiset(),
    ensures
        average_of(a, day, month) == average_of(b, day, month),
{
    lemma_year_extent_order_independent(a, b);
    lemma_totals_order_independent(a, b, day, month, first_year(a), last_year(a));
}

/// Over a record whose readings all fall in one year, the averages are that
/// year's extrema of the day asked for, taken over one year; there is no
/// average where that day has no reading.
pub proof fn lemma_single_year_average(records: Seq<TemperatureMeasurement>, day: u32, month: u32)
    requires
        records.len() > 0,
        first_year(records) == last_year(records),
    ensures
        ({
            let date = day_in_year(first_year(records), month, day);
            average_of(records, day, month) == if has_reading_on(records, date) {
                Ok::<(int, int, int), AverageError>(
                    (daily_min(records, date), daily_max(records, date), 1),
                )
            } else {
                Err::<(int, int, int), AverageError>(AverageError::NoYearsWithData)
            }
        }),
{
    reveal_with_fuel(years_with_data, 2);
    reveal_with_fuel(min_total, 2);
    reveal_with_fuel(max_total, 2);
}

} // verus!
