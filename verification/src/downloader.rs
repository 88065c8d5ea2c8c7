//! What the download of a station's archive has to work out from the texts
//! that the weather service publishes.

use crate::text::{chars_of, string_of};
use regex::Regex;
use vstd::prelude::*;

verus! {

/// Where the archives of hourly air temperature lie.
pub const DWD_URL: &'static str =
    "https://opendata.dwd.de/climate_environment/CDC/observations_germany/climate/hourly/air_temperature/historical/";

/// Where the description of the stations lies.
pub const STATION_DESCR_URL: &'static str =
    "https://opendata.dwd.de/climate_environment/CDC/observations_germany/climate/hourly/air_temperature/historical/TU_Stundenwerte_Beschreibung_Stationen.txt";

/// One line of the description of the stations: among others the station's
/// number in `station_id` and its name in `station_name`.
pub const STATION_LINE_PATTERN: &'static str =
    r"(?P<station_id>[0-9]{5})\s+(?P<from>[0-9]{8})\s+(?P<until>[0-9]{8})\s+(?P<elevation>-?[0-9]{1,4})\s+(?P<lat>[45][0-9]\.[0-9]{4})\s+(?P<lon>[1]?[0-9]\.[0-9]{4})\s+(?P<station_name>[A-ZÄ-Ü].*\S)\s+(?P<state>[A-Z].*\s+)";

/// The link to one archive in the directory of archives: the archive's name
/// in `file_name`, within it the station's number in `station_id`.
pub const ARCHIVE_LINK_PATTERN: &'static str =
    r"(?P<file_name>stundenwerte_TU_(?P<station_id>[0-9]{5})_(?:akt|(?:[0-9]{8}_[0-9]{8}_hist)).zip)</a>";

/// Why a text did not give what was looked for.
#[derive(Clone, Copy, Debug, PartialEq, Eq, Structural)]
pub enum LookupError {
    /// The pattern is no regular expression.
    BadPattern,
    /// No match of the pattern has the key that was asked for.
    NotFound,
    /// The first match with the key has no value.
    NoValue,
}

/// What one match of a pattern captured in two of its groups, the key and the
/// value; nothing for a group that took no part in the match.
pub type Capture = (Option<Seq<char>>, Option<Seq<char>>);

/// `i` is the place of the first of `captures` whose key is `key`.
pub open spec fn is_first_with_key(captures: Seq<Capture>, key: Seq<char>, i: int) -> bool {
    &&& 0 <= i < captures.len()
    &&& captures[i].0 == Some(key)
    &&& forall|k: int| 0 <= k < i ==> (#[trigger] captures[k]).0 != Some(key)
}

/// Some one of `captures` has the key `key`.
pub open spec fn has_key(captures: Seq<Capture>, key: Seq<char>) -> bool {
    exists|i: int| is_first_with_key(captures, key, i)
}

/// The place of the first of `captures` whose key is `key`.
pub open spec fn first_with_key(captures: Seq<Capture>, key: Seq<char>) -> int {
    choose|i: int| is_first_with_key(captures, key, i)
}

/// The value of the first of `captures` whose key is `key`.
pub open spec fn value_for_key(captures: Seq<Capture>, key: Seq<char>) -> Result<
    Seq<char>,
    LookupError,
> {
    if !has_key(captures, key) {
        Err(LookupError::NotFound)
    } else {
        match captures[first_with_key(captures, key)].1 {
            Some(value) => Ok(value),
            None => Err(LookupError::NoValue),
        }
    }
}

/// What a search gives: the value of the first capture whose key is `key`,
/// where the pattern could be used at all.
pub open spec fn looked_up(captures: Option<Seq<Capture>>, key: Seq<char>) -> Result<
    Seq<char>,
    LookupError,
> {
    match captures {
        None => Err(LookupError::BadPattern),
        Some(captures) => value_for_key(captures, key),
    }
}

/// The view of a result that holds a text.
pub open spec fn text_of(found: Result<String, LookupError>) -> Result<Seq<char>, LookupError> {
    match found {
        Ok(text) => Ok(text@),
        Err(e) => Err(e),
    }
}

/// Only one place is the first with a key.
pub proof fn lemma_first_with_key_unique(captures: Seq<Capture>, key: Seq<char>, a: int, b: int)
    requires
        is_first_with_key(captures, key, a),
        is_first_with_key(captures, key, b),
    ensures
        a == b,
{
}

/// Finds the value of the first capture whose key is `key`.
pub fn find_value(captures: &Vec<(Option<String>, Option<String>)>, key: &str) -> (found: Result<
    String,
    LookupError,
>)
    ensures
        text_of(found) == value_for_key(captures.deep_view(), key@),
{
    let wanted = key.to_owned();
    let ghost views = captures.deep_view();
    let mut i: usize = 0;
    while i < captures.len()
        invariant
            i <= captures@.len(),
            wanted@ == key@,
            views == captures.deep_view(),
            forall|k: int| 0 <= k < i ==> (#[trigger] views[k]).0 != Some(key@),
        decreases captures@.len() - i,
    {
        assert(views[i as int] == captures@[i as int].deep_view());
        let same = match &captures[i].0 {
            Some(name) => *name == wanted,
            None => false,
        };
        if same {
            proof {
                assert(is_first_with_key(views, key@, i as int));
                lemma_first_with_key_unique(views, key@, i as int, first_with_key(views, key@));
            }
            return match &captures[i].1 {
                Some(value) => Ok(value.clone()),
                None => Err(LookupError::NoValue),
            };
        }
        i += 1;
    }
    proof {
        if has_key(views, key@) {
            let k = first_with_key(views, key@);
            assert(views[k].0 == Some(key@));
        }
    }
    Err(LookupError::NotFound)
}

/// What the groups `key` and `value` of the regular expression `pattern`
/// capture in each of its matches in `haystack`, one after the other, as
/// `regex` finds them; nothing where `pattern` is no regular expression.
pub uninterp spec fn regex_captures(
    pattern: Seq<char>,
    haystack: Seq<char>,
    key: Seq<char>,
    value: Seq<char>,
) -> Option<Seq<Capture>>;

/// Compiles `pattern` with `regex::Regex::new`, walks `captures_iter` over
/// `haystack` and takes from each match the groups named `key` and `value`
/// with `Captures::name`. Trusted: what comes back depends on the four texts
/// alone.
#[verifier::external_body]
fn captures(pattern: &str, haystack: &str, key: &str, value: &str) -> (found: Option<
    Vec<(Option<String>, Option<String>)>,
>)
    ensures
        found.deep_view() == regex_captures(pattern@, haystack@, key@, value@),
{
    let regex = Regex::new(pattern).ok()?;
    Some(
        regex.captures_iter(haystack).map(
            |found| (
                found.name(key).map(|group| group.as_str().to_owned()),
                found.name(value).map(|group| group.as_str().to_owned()),
            ),
        ).collect(),
    )
}

/// Searches `haystack` for the matches of `pattern` and gives what the group
/// `value` captured in the first match whose group `key` captured `wanted`.
pub fn search(pattern: &str, haystack: &str, key: &str, value: &str, wanted: &str) -> (found:
    Result<String, LookupError>)
    ensures
        text_of(found) == looked_up(regex_captures(pattern@, haystack@, key@, value@), wanted@),
{
    match captures(pattern, haystack, key, value) {
        Some(all) => find_value(&all, wanted),
        None => Err(LookupError::BadPattern),
    }
}

/// The number of the station named `station_name` in the description of the
/// stations `station_info`: that of the first line with this name.
pub fn filter_station_info(station_info: &str, station_name: &str) -> (found: Result<
    String,
    LookupError,
>)
    ensures
        text_of(found) == looked_up(
            regex_captures(STATION_LINE_PATTERN@, station_info@, "station_name"@, "station_id"@),
            station_name@,
        ),
{
    search(STATION_LINE_PATTERN, station_info, "station_name", "station_id", station_name)
}

/// The name of the archive of the station with the number `station_id` in
/// the directory of archives `toc`: that of the first link for this station.
pub fn find_station_zipfile(toc: &str, station_id: &str) -> (found: Result<String, LookupError>)
    ensures
        text_of(found) == looked_up(
            regex_captures(ARCHIVE_LINK_PATTERN@, toc@, "station_id"@, "file_name"@),
            station_id@,
        ),
{
    search(ARCHIVE_LINK_PATTERN, toc, "station_id", "file_name", station_id)
}

/// How many lines head the description of the stations before its first
/// station.
pub const HEADER_LINES: usize = 2;

/// What is left of `s` behind its first `lines` line ends; nothing where
/// it has fewer.
pub open spec fn after_lines(s: Seq<char>, lines: nat) -> Seq<char>
    decreases s.len(),
{
    if lines == 0 || s.len() == 0 {
        s
    } else if s.first() == '\n' {
        after_lines(s.drop_first(), (lines - 1) as nat)
    } else {
        after_lines(s.drop_first(), lines)
    }
}

/// `s` without its line ends.
pub open spec fn without_line_ends(s: Seq<char>) -> Seq<char>
    decreases s.len(),
{
    if s.len() == 0 {
        s
    } else if s.last() == '\n' {
        without_line_ends(s.drop_last())
    } else {
        without_line_ends(s.drop_last()).push(s.last())
    }
}

/// The lines of the stations in the description `listing`, run together into
/// one: `listing` without its header lines and without any line end.
pub open spec fn station_lines(listing: Seq<char>) -> Seq<char> {
    without_line_ends(after_lines(listing, HEADER_LINES as nat))
}

/// Drops the header lines of the description of the stations and runs its
/// other lines together into one.
pub fn join_station_lines(listing: &str) -> (joined: String)
    ensures
        joined@ == station_lines(listing@),
{
    let chars = chars_of(listing);
    let mut seen: usize = 0;
    let mut start: usize = 0;
    assert(chars@.skip(0) == chars@);
    while start < chars.len() && seen < HEADER_LINES
        invariant
            start <= chars@.len(),
            seen <= HEADER_LINES,
            after_lines(chars@, HEADER_LINES as nat) == after_lines(
                chars@.skip(start as int),
                (HEADER_LINES - seen) as nat,
            ),
        decreases chars@.len() - start,
    {
        assert(chars@.skip(start as int).drop_first() == chars@.skip(start + 1));
        if chars[start] == '\n' {
            seen += 1;
        }
        start += 1;
    }
    assert(after_lines(chars@, HEADER_LINES as nat) == chars@.skip(start as int));
    let mut kept: Vec<char> = Vec::new();
    let mut i: usize = start;
    while i < chars.len()
        invariant
            start <= i <= chars@.len(),
            kept@ == without_line_ends(chars@.subrange(start as int, i as int)),
        decreases chars@.len() - i,
    {
        assert(chars@.subrange(start as int, i + 1).drop_last() == chars@.subrange(
            start as int,
            i as int,
        ));
        if chars[i] != '\n' {
            kept.push(chars[i]);
        }
        i += 1;
    }
    assert(chars@.subrange(start as int, chars@.len() as int) == chars@.skip(start as int));
    string_of(&kept)
}

/// The number of the station named `station_name` in the description of the
/// stations as the weather service publishes it, header lines included.
pub fn station_id_in_listing(listing: &str, station_name: &str) -> (found: Result<
    String,
    LookupError,
>)
    ensures
        text_of(found) == looked_up(
            regex_captures(
                STATION_LINE_PATTERN@,
                station_lines(listing@),
                "station_name"@,
                "station_id"@,
            ),
            station_name@,
        ),
{
    let lines = join_station_lines(listing);
    filter_station_info(lines.as_str(), station_name)
}

/// Where the archive named `zip_name` is to be fetched from.
pub fn download_url(zip_name: &str) -> (url: String)
    ensures
        url@ == DWD_URL@ + "/"@ + zip_name@,
{
    String::from_str(DWD_URL).concat("/").concat(zip_name)
}

/// What the name of the data file within a station's archive holds.
pub const DATA_FILE_MARK: &'static str = "produkt_tu";

/// `needle` stands in `haystack` from place `at` on.
pub open spec fn occurs_at(needle: Seq<char>, haystack: Seq<char>, at: int) -> bool {
    0 <= at && at + needle.len() <= haystack.len() && haystack.subrange(at, at + needle.len())
        == needle
}

/// `needle` stands somewhere in `haystack`.
pub open spec fn occurs_in(needle: Seq<char>, haystack: Seq<char>) -> bool {
    exists|at: int| occurs_at(needle, haystack, at)
}

/// Tells whether `needle` stands in `haystack` from place `at` on.
fn matches_at(needle: &Vec<char>, haystack: &Vec<char>, at: usize) -> (found: bool)
    requires
        at + needle@.len() <= haystack@.len(),
    ensures
        found == occurs_at(needle@, haystack@, at as int),
{
    let ghost part = haystack@.subrange(at as int, at + needle@.len());
    let length = haystack.len();
    let mut i: usize = 0;
    while i < needle.len()
        invariant
            i <= needle@.len(),
            length == haystack@.len(),
            at + needle@.len() <= haystack@.len(),
            part == haystack@.subrange(at as int, at + needle@.len()),
            forall|k: int| 0 <= k < i ==> part[k] == needle@[k],
        decreases needle@.len() - i,
    {
        if haystack[at + i] != needle[i] {
            assert(part[i as int] != needle@[i as int]);
            return false;
        }
        i += 1;
    }
    assert(part =~= needle@);
    true
}

/// Tells whether `needle` stands somewhere in `haystack`.
pub fn contains_text(haystack: &str, needle: &str) -> (found: bool)
    ensures
        found == occurs_in(needle@, haystack@),
{
    let hay = chars_of(haystack);
    let pin = chars_of(needle);
    if pin.len() > hay.len() {
        return false;
    }
    if pin.len() == 0 {
        assert(occurs_at(needle@, haystack@, 0)) by {
            assert(haystack@.subrange(0, 0) =~= needle@);
        }
        return true;
    }
    let length = hay.len();
    let last = length - pin.len();
    let mut at: usize = 0;
    while at <= last
        invariant
            at <= last + 1,
            last + pin@.len() == hay@.len(),
            length == hay@.len(),
            pin@.len() > 0,
            hay@ == haystack@,
            pin@ == needle@,
            forall|k: int| 0 <= k < at ==> !occurs_at(needle@, haystack@, k),
        decreases last + 1 - at,
    {
        if matches_at(&pin, &hay, at) {
            return true;
        }
        at += 1;
    }
    false
}

/// `i` is the place of the first of `paths` that holds the mark of the data
/// file.
pub open spec fn is_data_file(paths: Seq<String>, i: int) -> bool {
    &&& 0 <= i < paths.len()
    &&& occurs_in(DATA_FILE_MARK@, paths[i]@)
    &&& forall|k: int| 0 <= k < i ==> !occurs_in(DATA_FILE_MARK@, (#[trigger] paths[k])@)
}

/// The place, among the paths of the files of a station's archive, of the
/// data file: the first whose path holds `produkt_tu`.
pub fn find_data_file(paths: &Vec<String>) -> (found: Option<usize>)
    ensures
        found matches Some(i) ==> is_data_file(paths@, i as int),
        found is None ==> forall|k: int|
            0 <= k < paths@.len() ==> !occurs_in(DATA_FILE_MARK@, (#[trigger] paths@[k])@),
{
    let mut i: usize = 0;
    while i < paths.len()
        invariant
            i <= paths@.len(),
            forall|k: int| 0 <= k < i ==> !occurs_in(DATA_FILE_MARK@, (#[trigger] paths@[k])@),
        decreases paths@.len() - i,
    {
        if contains_text(paths[i].as_str(), DATA_FILE_MARK) {
            return Some(i);
        }
        i += 1;
    }
    None
}

} // verus!
