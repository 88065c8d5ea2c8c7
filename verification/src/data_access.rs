//! Temperature readings and how they are read from a station's data file.

use crate::calendar::{is_calendar_date, CalendarDate, Timestamp};
use crate::text::{
    all_digits, chars_of, digit_of, digit_value, digits_value, is_digit, parsed_i32, parsed_u32,
    read_digits, read_i32, read_u32, trim_bounds, trimmed,
};
use vstd::prelude::*;

verus! {

/// The field separator of a station's data file.
pub const FIELD_SEPARATOR: u8 = 0x3b;

/// How many units of a stored temperature make one degree: temperatures are
/// whole numbers of thousandths of a degree.
pub const UNITS_PER_DEGREE: i32 = 1000;

/// One reading: the air temperature, in thousandths of a degree, at one hour
/// of one day.
#[derive(Clone, Copy, Debug)]
pub struct TemperatureMeasurement {
    date: Timestamp,
    measurement: i32,
}

impl TemperatureMeasurement {
    /// When the reading was taken.
    pub closed spec fn spec_timestamp(&self) -> Timestamp {
        self.date
    }

    /// The reading, in thousandths of a degree.
    pub closed spec fn spec_temperature(&self) -> i32 {
        self.measurement
    }

    /// The day on which the reading was taken.
    pub open spec fn day_taken(&self) -> CalendarDate {
        self.spec_timestamp().spec_date()
    }

    /// The year in which the reading was taken.
    pub open spec fn year_taken(&self) -> int {
        self.day_taken().year as int
    }

    /// What every reading that executable code holds satisfies.
    pub open spec fn wf(&self) -> bool {
        self.spec_timestamp().wf()
    }

    /// The reading as plain values: its day, its hour and its temperature.
    pub open spec fn reading(&self) -> (CalendarDate, u32, i32) {
        (self.day_taken(), self.spec_timestamp().spec_hour(), self.spec_temperature())
    }

    pub fn new(date: Timestamp, measurement: i32) -> (made: TemperatureMeasurement)
        ensures
            made.spec_timestamp() == date,
            made.spec_temperature() == measurement,
    {
        TemperatureMeasurement { date, measurement }
    }

    #[verifier::when_used_as_spec(spec_timestamp)]
    pub fn timestamp(&self) -> (date: Timestamp)
        ensures
            date == self.spec_timestamp(),
            self.wf(),
    {
        let date = self.date;
        let _ = date.hour();
        date
    }

    #[verifier::when_used_as_spec(spec_temperature)]
    pub fn temperature(&self) -> (measurement: i32)
        ensures
            measurement == self.spec_temperature(),
    {
        self.measurement
    }
}

/// The part of `s` that starts `start` characters in and is `width`
/// characters long, or as much of it as `s` has.
pub open spec fn field(s: Seq<char>, start: int, width: int) -> Seq<char> {
    let from = if start < s.len() {
        start
    } else {
        s.len() as int
    };
    let to = if start + width < s.len() {
        start + width
    } else {
        s.len() as int
    };
    s.subrange(from, to)
}

/// What is wrong with a text that should give a day and an hour.
#[derive(Clone, Copy, Debug, PartialEq, Eq, Structural)]
pub enum DateParseError {
    /// The first four characters write no year.
    Year,
    /// The fifth and sixth characters write no month.
    Month,
    /// The seventh and eighth characters write no day.
    Day,
    /// The ninth and tenth characters write no hour.
    Hour,
    /// The calendar has no such day.
    NoSuchDay,
    /// A day has no such hour.
    NoSuchHour,
}

/// The day and hour that `s` writes: four characters for the year, then two
/// each for the month, the day and the hour, each a decimal number; what
/// follows them is ignored. The first thing that is wrong decides the error.
pub open spec fn parsed_date(s: Seq<char>) -> Result<(CalendarDate, u32), DateParseError> {
    match (
        parsed_i32(field(s, 0, 4)),
        parsed_u32(field(s, 4, 2)),
        parsed_u32(field(s, 6, 2)),
        parsed_u32(field(s, 8, 2)),
    ) {
        (None, _, _, _) => Err(DateParseError::Year),
        (_, None, _, _) => Err(DateParseError::Month),
        (_, _, None, _) => Err(DateParseError::Day),
        (_, _, _, None) => Err(DateParseError::Hour),
        (Some(year), Some(month), Some(day), Some(hour)) => {
            if !is_calendar_date(year as int, month as int, day as int) {
                Err(DateParseError::NoSuchDay)
            } else if hour >= 24 {
                Err(DateParseError::NoSuchHour)
            } else {
                Ok((CalendarDate { year, month, day }, hour))
            }
        },
    }
}

/// Where the field that starts `start` characters in and is `width`
/// characters long lies within `chars`.
fn field_bounds(chars: &Vec<char>, start: usize, width: usize) -> (bounds: (usize, usize))
    requires
        start + width <= usize::MAX,
    ensures
        bounds.0 <= bounds.1 <= chars@.len(),
        chars@.subrange(bounds.0 as int, bounds.1 as int) == field(
            chars@,
            start as int,
            width as int,
        ),
{
    let len = chars.len();
    let from = if start < len {
        start
    } else {
        len
    };
    let to = if start + width < len {
        start + width
    } else {
        len
    };
    (from, to)
}

/// Reads a day and an hour from a text such as `2020010110`: the year in four
/// characters, then the month, the day and the hour in two each.
pub fn parse_date_string(datetime_string: &str) -> (parsed: Result<Timestamp, DateParseError>)
    ensures
        match parsed {
            Ok(t) => t.wf() && parsed_date(datetime_string@) == Ok::<
                (CalendarDate, u32),
                DateParseError,
            >((t.spec_date(), t.spec_hour())),
            Err(e) => parsed_date(datetime_string@) == Err::<(CalendarDate, u32), DateParseError>(e),
        },
{
    let chars = chars_of(datetime_string);
    let (from, to) = field_bounds(&chars, 0, 4);
    let year = match read_i32(&chars, from, to) {
        Some(year) => year,
        None => { return Err(DateParseError::Year); },
    };
    let (from, to) = field_bounds(&chars, 4, 2);
    let month = match read_u32(&chars, from, to) {
        Some(month) => month,
        None => { return Err(DateParseError::Month); },
    };
    let (from, to) = field_bounds(&chars, 6, 2);
    let day = match read_u32(&chars, from, to) {
        Some(day) => day,
        None => { return Err(DateParseError::Day); },
    };
    let (from, to) = field_bounds(&chars, 8, 2);
    let hour = match read_u32(&chars, from, to) {
        Some(hour) => hour,
        None => { return Err(DateParseError::Hour); },
    };
    match Timestamp::from_ymd_h(year, month, day, hour) {
        Some(t) => Ok(t),
        None => {
            if CalendarDate::new(year, month, day).is_valid() {
                Err(DateParseError::NoSuchHour)
            } else {
                Err(DateParseError::NoSuchDay)
            }
        },
    }
}

/// What is wrong with a text that should give a temperature.
#[derive(Clone, Copy, Debug, PartialEq, Eq, Structural)]
pub enum TemperatureParseError {
    /// The text is no decimal number.
    Malformed,
    /// The number is no whole number of thousandths of a degree.
    TooPrecise,
    /// The number of thousandths does not fit the type that holds it.
    OutOfRange,
}

/// `s` is decimal digits, or decimal digits, a point and decimal digits, with
/// one digit at least, and the part before the point is `whole` characters
/// long.
pub open spec fn is_decimal_split(s: Seq<char>, whole: int) -> bool {
    &&& 0 <= whole <= s.len()
    &&& all_digits(s.take(whole))
    &&& whole < s.len() ==> s[whole] == '.' && s.len() > 1 && all_digits(s.skip(whole + 1))
    &&& s.len() > 0
}

/// `s` is a decimal number without a sign.
pub open spec fn is_decimal(s: Seq<char>) -> bool {
    exists|whole: int| is_decimal_split(s, whole)
}

/// How many characters the part before the point of the decimal number `s`
/// is long.
pub open spec fn whole_length(s: Seq<char>) -> int {
    choose|whole: int| is_decimal_split(s, whole)
}

/// The digits behind the point of the decimal number `s`, whose part before
/// the point is `whole` characters long; none where `s` has no point.
pub open spec fn fraction_of(s: Seq<char>, whole: int) -> Seq<char> {
    if whole < s.len() {
        s.skip(whole + 1)
    } else {
        Seq::empty()
    }
}

/// The decimal digit at place `i` of `s`, 0 where `s` ends before.
pub open spec fn digit_at(s: Seq<char>, i: int) -> nat {
    if 0 <= i < s.len() {
        digit_value(s[i])
    } else {
        0
    }
}

/// The thousandths that the digits `fraction`, taken as those behind a
/// decimal point, come to, as far as their first three go.
pub open spec fn thousandths(fraction: Seq<char>) -> nat {
    digit_at(fraction, 0) * 100 + digit_at(fraction, 1) * 10 + digit_at(fraction, 2)
}

/// Some digit of `fraction` behind the third is not `0`.
pub open spec fn finer_than_thousandths(fraction: Seq<char>) -> bool {
    exists|i: int| 3 <= i < fraction.len() && #[trigger] fraction[i] != '0'
}

/// The temperature, in thousandths of a degree, that `s` writes as a decimal
/// number: an optional sign, digits, and optionally a point and more digits.
/// The first thing that is wrong decides the error.
pub open spec fn parsed_temperature(s: Seq<char>) -> Result<i32, TemperatureParseError> {
    let negative = s.len() > 0 && s[0] == '-';
    let number = if s.len() > 0 && (s[0] == '-' || s[0] == '+') {
        s.skip(1)
    } else {
        s
    };
    if !is_decimal(number) {
        Err(TemperatureParseError::Malformed)
    } else {
        let whole = whole_length(number);
        let fraction = fraction_of(number, whole);
        let size = digits_value(number.take(whole)) * 1000 + thousandths(fraction);
        let value = if negative {
            -size
        } else {
            size as int
        };
        if finer_than_thousandths(fraction) {
            Err(TemperatureParseError::TooPrecise)
        } else if value < i32::MIN || value > i32::MAX {
            Err(TemperatureParseError::OutOfRange)
        } else {
            Ok(value as i32)
        }
    }
}

/// A decimal number splits into whole part and fraction in one way only.
pub proof fn lemma_decimal_split_unique(s: Seq<char>, a: int, b: int)
    requires
        is_decimal_split(s, a),
        is_decimal_split(s, b),
    ensures
        a == b,
{
    if a < b {
        assert(s.take(b)[a] == s[a]);
    }
    if b < a {
        assert(s.take(a)[b] == s[b]);
    }
}

/// Reads the characters of `chars` from `from` up to `to` as a temperature.
pub fn read_temperature(chars: &Vec<char>, from: usize, to: usize) -> (parsed: Result<
    i32,
    TemperatureParseError,
>)
    requires
        from <= to <= chars@.len(),
    ensures
        parsed == parsed_temperature(chars@.subrange(from as int, to as int)),
{
    let ghost s = chars@.subrange(from as int, to as int);
    let negative = from < to && chars[from] == '-';
    let start = if from < to && (chars[from] == '-' || chars[from] == '+') {
        from + 1
    } else {
        from
    };
    let ghost number = chars@.subrange(start as int, to as int);
    assert(number == if s.len() > 0 && (s[0] == '-' || s[0] == '+') {
        s.skip(1)
    } else {
        s
    });
    let mut point: usize = start;
    while point < to && digit_of(chars[point]).is_some()
        invariant
            start <= point <= to <= chars@.len(),
            number == chars@.subrange(start as int, to as int),
            all_digits(number.take(point - start)),
        decreases to - point,
    {
        assert forall|k: int| 0 <= k < point - start + 1 implies is_digit(
            #[trigger] number.take(point - start + 1)[k],
        ) by {
            if k < point - start {
                assert(number.take(point - start)[k] == number[k]);
            }
        }
        point += 1;
    }
    let ghost whole = point - start;
    assert(chars@.subrange(start as int, point as int) == number.take(whole));
    let fraction_start = if point < to {
        point + 1
    } else {
        to
    };
    let ghost fraction = fraction_of(number, whole as int);
    assert(chars@.subrange(fraction_start as int, to as int) == fraction);
    let fraction_digits = read_digits(chars, fraction_start, to);
    if start == to || (point < to && (chars[point] != '.' || to - start == 1
        || fraction_digits.is_none())) {
        proof {
            if is_decimal(number) {
                let w = whole_length(number);
                if w < whole {
                    assert(number.take(whole)[w] == number[w]);
                } else if w > whole {
                    assert(number.take(w)[whole] == number[whole as int]);
                }
            }
        }
        return Err(TemperatureParseError::Malformed);
    }
    proof {
        assert(is_decimal_split(number, whole as int));
        lemma_decimal_split_unique(number, whole as int, whole_length(number));
    }
    let mut place: usize = fraction_start;
    let mut fine: u64 = 0;
    let mut weight: u64 = 100;
    let mut too_precise = false;
    while place < to
        invariant
            fraction_start <= place <= to <= chars@.len(),
            fraction == chars@.subrange(fraction_start as int, to as int),
            all_digits(fraction),
            place - fraction_start == 0 ==> weight == 100 && fine == 0,
            place - fraction_start == 1 ==> weight == 10 && fine == digit_at(fraction, 0) * 100,
            place - fraction_start == 2 ==> weight == 1 && fine == digit_at(fraction, 0) * 100
                + digit_at(fraction, 1) * 10,
            place - fraction_start >= 3 ==> weight == 0 && fine == thousandths(fraction),
            fine <= 999,
            too_precise <==> exists|i: int|
                3 <= i < place - fraction_start && #[trigger] fraction[i] != '0',
        decreases to - place,
    {
        assert(fraction[place - fraction_start] == chars@[place as int]);
        assert(is_digit(fraction[place - fraction_start]));
        let digit = match digit_of(chars[place]) {
            Some(digit) => digit,
            None => 0,
        };
        if weight == 0 {
            if digit != 0 {
                too_precise = true;
            }
        } else {
            fine = fine + digit * weight;
            weight = weight / 10;
        }
        place += 1;
    }
    if too_precise {
        return Err(TemperatureParseError::TooPrecise);
    }
    let whole_value = match read_digits(chars, start, point) {
        Some(value) => value,
        None => 0,
    };
    if whole_value > 2147483 {
        return Err(TemperatureParseError::OutOfRange);
    }
    let size: i64 = (whole_value * 1000 + fine) as i64;
    let value = if negative {
        -size
    } else {
        size
    };
    if value < -0x8000_0000 || value > 0x7fff_ffff {
        Err(TemperatureParseError::OutOfRange)
    } else {
        Ok(value as i32)
    }
}

/// What is wrong with a row of a station's data file.
#[derive(Clone, Copy, Debug, PartialEq, Eq, Structural)]
pub enum RowError {
    /// The row could not be read as fields of text.
    Unreadable,
    /// The row has no second field, which should hold day and hour.
    NoDate,
    /// The second field holds no day and hour.
    Date(DateParseError),
    /// The row has no fourth field, which should hold the temperature.
    NoTemperature,
    /// The fourth field holds no temperature.
    Temperature(TemperatureParseError),
}

/// The first row of a station's data file that is wrong, counted from 0
/// behind the header, and what is wrong with it.
#[derive(Clone, Copy, Debug, PartialEq, Eq, Structural)]
pub struct LoadError {
    pub row: usize,
    pub error: RowError,
}

/// The reading that a row holds: day and hour in its second field, the
/// temperature in its fourth, with white space around it or without. The
/// first thing that is wrong decides the error.
pub open spec fn reading_of_row(row: Option<Seq<Seq<char>>>) -> Result<
    (CalendarDate, u32, i32),
    RowError,
> {
    match row {
        None => Err(RowError::Unreadable),
        Some(fields) => {
            if fields.len() < 2 {
                Err(RowError::NoDate)
            } else {
                match parsed_date(fields[1]) {
                    Err(e) => Err(RowError::Date(e)),
                    Ok((date, hour)) => {
                        if fields.len() < 4 {
                            Err(RowError::NoTemperature)
                        } else {
                            match parsed_temperature(trimmed(fields[3])) {
                                Err(e) => Err(RowError::Temperature(e)),
                                Ok(temperature) => Ok((date, hour, temperature)),
                            }
                        }
                    },
                }
            }
        },
    }
}

/// Reads a temperature from a text such as ` -2.4`, with white space around
/// it or without.
pub fn parse_temperature(text: &str) -> (parsed: Result<i32, TemperatureParseError>)
    ensures
        parsed == parsed_temperature(trimmed(text@)),
{
    let chars = chars_of(text);
    let (from, to) = trim_bounds(&chars);
    read_temperature(&chars, from, to)
}

/// Reads the reading that one row holds.
pub fn measurement_from_row(row: &Option<Vec<String>>) -> (made: Result<
    TemperatureMeasurement,
    RowError,
>)
    ensures
        match made {
            Ok(m) => m.wf() && reading_of_row(row.deep_view()) == Ok::<
                (CalendarDate, u32, i32),
                RowError,
            >(m.reading()),
            Err(e) => reading_of_row(row.deep_view()) == Err::<(CalendarDate, u32, i32), RowError>(e),
        },
{
    let fields = match row {
        Some(fields) => fields,
        None => { return Err(RowError::Unreadable); },
    };
    assert(row.deep_view() == Some(fields.deep_view()));
    assert(fields.deep_view().len() == fields@.len());
    if fields.len() < 2 {
        return Err(RowError::NoDate);
    }
    assert(fields.deep_view()[1] == fields@[1]@);
    let date = match parse_date_string(fields[1].as_str()) {
        Ok(date) => date,
        Err(e) => { return Err(RowError::Date(e)); },
    };
    if fields.len() < 4 {
        return Err(RowError::NoTemperature);
    }
    assert(fields.deep_view()[3] == fields@[3]@);
    match parse_temperature(fields[3].as_str()) {
        Ok(temperature) => Ok(TemperatureMeasurement::new(date, temperature)),
        Err(e) => Err(RowError::Temperature(e)),
    }
}

/// Reads the readings that the rows hold, one for each row and in their
/// order, or reports the first row that is wrong.
pub fn measurements_from_rows(rows: &Vec<Option<Vec<String>>>) -> (loaded: Result<
    Vec<TemperatureMeasurement>,
    LoadError,
>)
    ensures
        match loaded {
            Ok(measurements) => {
                &&& measurements@.len() == rows@.len()
                &&& forall|i: int|
                    0 <= i < rows@.len() ==> (#[trigger] measurements@[i]).wf() && reading_of_row(
                        rows.deep_view()[i],
                    ) == Ok::<(CalendarDate, u32, i32), RowError>(measurements@[i].reading())
            },
            Err(e) => {
                &&& e.row < rows@.len()
                &&& reading_of_row(rows.deep_view()[e.row as int]) == Err::<
                    (CalendarDate, u32, i32),
                    RowError,
                >(e.error)
                &&& forall|i: int| 0 <= i < e.row ==> reading_of_row(#[trigger] rows.deep_view()[i]) is Ok
            },
        },
{
    let mut measurements: Vec<TemperatureMeasurement> = Vec::new();
    let mut i: usize = 0;
    while i < rows.len()
        invariant
            i <= rows@.len(),
            measurements@.len() == i,
            forall|k: int|
                0 <= k < i ==> (#[trigger] measurements@[k]).wf() && reading_of_row(
                    rows.deep_view()[k],
                ) == Ok::<(CalendarDate, u32, i32), RowError>(measurements@[k].reading()),
            forall|k: int| 0 <= k < i ==> reading_of_row(#[trigger] rows.deep_view()[k]) is Ok,
        decreases rows@.len() - i,
    {
        assert(rows.deep_view()[i as int] == rows@[i as int].deep_view());
        match measurement_from_row(&rows[i]) {
            Ok(m) => {
                measurements.push(m);
            },
            Err(error) => {
                return Err(LoadError { row: i, error });
            },
        }
        i += 1;
    }
    Ok(measurements)
}

/// The rows that the text `data` holds behind its header row, fields parted
/// by `delimiter`, as `csv` reads them: for each row its fields, or nothing
/// where `csv` reports an error for the row.
pub uninterp spec fn csv_rows(data: Seq<u8>, delimiter: u8) -> Seq<Option<Seq<Seq<char>>>>;

/// Reads `data` with a `csv::Reader` made by `csv::ReaderBuilder` with the
/// given delimiter and walks its `records()`. Trusted: what comes back depends
/// on `data` and `delimiter` alone.
#[verifier::external_body]
fn read_rows(data: &[u8], delimiter: u8) -> (rows: Vec<Option<Vec<String>>>)
    ensures
        rows.deep_view() == csv_rows(data@, delimiter),
{
    let mut reader = csv::ReaderBuilder::new().delimiter(delimiter).from_reader(data);
    reader.records().map(
        |row| row.ok().map(|record| record.iter().map(|field| field.to_owned()).collect()),
    ).collect()
}

/// Reads the readings of a station's data file from its content: rows of
/// fields parted by `;` behind one header row. Gives a reading for each row,
/// in their order, or reports the first row that is wrong.
pub fn load_data(data: &[u8]) -> (loaded: Result<Vec<TemperatureMeasurement>, LoadError>)
    ensures
        match loaded {
            Ok(measurements) => {
                &&& measurements@.len() == csv_rows(data@, FIELD_SEPARATOR).len()
                &&& forall|i: int|
                    0 <= i < measurements@.len() ==> (#[trigger] measurements@[i]).wf()
                        && reading_of_row(csv_rows(data@, FIELD_SEPARATOR)[i]) == Ok::<
                        (CalendarDate, u32, i32),
                        RowError,
                    >(measurements@[i].reading())
            },
            Err(e) => {
                &&& e.row < csv_rows(data@, FIELD_SEPARATOR).len()
                &&& reading_of_row(csv_rows(data@, FIELD_SEPARATOR)[e.row as int]) == Err::<
                    (CalendarDate, u32, i32),
                    RowError,
                >(e.error)
                &&& forall|i: int|
                    0 <= i < e.row ==> reading_of_row(
                        #[trigger] csv_rows(data@, FIELD_SEPARATOR)[i],
                    ) is Ok
            },
        },
{
    let rows = read_rows(data, FIELD_SEPARATOR);
    assert(rows.deep_view().len() == rows@.len());
    measurements_from_rows(&rows)
}

} // verus!
