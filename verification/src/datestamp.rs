//! The `Last modified` and `Version` lines of a filter list's header, and
//! the calendar that their dates are written in.

use crate::text::{
    append, ascii_lowercase, ascii_lowered, chars_of, contains_str, copy, decimal, first_where,
    index_of, is_prefix, laid_out, lay_out, leading, lemma_index_from, lemma_leading,
    line_ending, line_ending_of, lines, occurs, rows, same, slice, starts_with_str, string_of,
    texts, to_decimal, to_two_digits, trim, trim_start, trimmed, trimmed_start, two_digits,
};
use vstd::prelude::*;

verus! {

/// A line that states when the list was last changed: it holds
/// `last modified:` or `last updated:`, in any mix of ASCII cases.
pub open spec fn timestamp_line(line: Seq<char>) -> bool {
    occurs(ascii_lowered(line), "last modified:"@) || occurs(
        ascii_lowered(line),
        "last updated:"@,
    )
}

/// Whether `line` states when the list was last changed.
pub fn is_timestamp_line(line: &str) -> (b: bool)
    ensures
        b == timestamp_line(line@),
{
    let lower = ascii_lowercase(&chars_of(line));
    contains_str(&lower, "last modified:") || contains_str(&lower, "last updated:")
}

/// The test for being one of the two characters that open a comment.
pub open spec fn comment_mark() -> spec_fn(char) -> bool {
    |c: char| c == '!' || c == '#'
}

/// What is left of a header line after the white space, the comment marks
/// and the white space at its start.
pub open spec fn header_body(line: Seq<char>) -> Seq<char> {
    let t = trimmed_start(line);
    trimmed_start(t.skip(leading(t, comment_mark()) as int))
}

/// A line that states the list's version: its body begins with `version:`,
/// in any mix of ASCII cases.
pub open spec fn version_line(line: Seq<char>) -> bool {
    is_prefix(ascii_lowered(header_body(line)), "version:"@)
}

/// Whether `line` states the list's version.
pub fn is_version_line(line: &str) -> (b: bool)
    ensures
        b == version_line(line@),
{
    let t = trim_start(&chars_of(line));
    let mut i: usize = 0;
    while i < t.len() && (t[i] == '!' || t[i] == '#')
        invariant
            i <= t.len(),
            forall|j: int| 0 <= j < i ==> comment_mark()(#[trigger] t@[j]),
        decreases t.len() - i,
    {
        i += 1;
    }
    proof {
        lemma_leading(t@, comment_mark(), i as int);
    }
    let body = trim_start(&slice(&t, i, t.len()));
    let lower = ascii_lowercase(&body);
    starts_with_str(&lower, "version:")
}

/// The seconds in a day.
pub const DAY: u64 = 86400;

/// A leap year of the Gregorian calendar.
pub open spec fn leap_year(year: int) -> bool {
    (year % 4 == 0 && year % 100 != 0) || year % 400 == 0
}

/// The number of days of a year.
pub open spec fn days_in_year(year: int) -> int {
    if leap_year(year) {
        366
    } else {
        365
    }
}

/// The number of days of a month, counted from 0 for January.
pub open spec fn days_in_month(year: int, month: int) -> int {
    if month == 1 {
        if leap_year(year) {
            29
        } else {
            28
        }
    } else if month == 3 || month == 5 || month == 8 || month == 10 {
        30
    } else {
        31
    }
}

/// The number of days from the first day of 1970 to the first day of
/// `year`.
pub open spec fn days_to_year(year: int) -> int
    decreases year - 1970,
{
    if year <= 1970 {
        0
    } else {
        days_to_year(year - 1) + days_in_year(year - 1)
    }
}

/// The number of days from the first day of `year` to the first day of its
/// month `month`.
pub open spec fn days_to_month(year: int, month: int) -> int
    decreases month,
{
    if month <= 0 {
        0
    } else {
        days_to_month(year, month - 1) + days_in_month(year, month - 1)
    }
}

/// A moment of a day of the calendar, to the minute. Months count from 0.
pub struct Moment {
    pub year: u64,
    pub month: usize,
    pub day: u64,
    pub hours: u64,
    pub minutes: u64,
}

/// The moment names a day of the calendar and a minute of the day.
pub open spec fn well_formed(m: Moment) -> bool {
    &&& m.year >= 1970
    &&& m.month < 12
    &&& 1 <= m.day <= days_in_month(m.year as int, m.month as int)
    &&& m.hours < 24
    &&& m.minutes < 60
}

/// The moment is the one that lies `secs` seconds after the start of 1970,
/// seconds left out.
pub open spec fn moment_of(m: Moment, secs: u64) -> bool {
    &&& well_formed(m)
    &&& days_to_year(m.year as int) + days_to_month(m.year as int, m.month as int) + (m.day - 1)
        == secs / DAY
    &&& m.hours == (secs % DAY) / 3600
    &&& m.minutes == (secs % 3600) / 60
}

/// The year that day `days` lies in, counting days and years from the
/// first day of `year`, and the day's number in that year.
pub open spec fn year_split(days: int, year: int) -> (int, int)
    decreases days,
{
    if days < days_in_year(year) {
        (year, days)
    } else {
        year_split(days - days_in_year(year), year + 1)
    }
}

/// The month that day `days` lies in, counting days and months from the
/// first day of month `month` of `year`, and the day's number in that
/// month.
pub open spec fn month_split(year: int, days: int, month: int) -> (int, int)
    decreases 11 - month,
{
    if month >= 11 || days < days_in_month(year, month) {
        (month, days)
    } else {
        month_split(year, days - days_in_month(year, month), month + 1)
    }
}

/// The calendar day and the minute of the day that lie `secs` seconds after
/// the start of 1970.
pub open spec fn moment(secs: u64) -> Moment {
    let in_year = year_split(secs as int / DAY as int, 1970);
    let in_month = month_split(in_year.0, in_year.1, 0);
    Moment {
        year: in_year.0 as u64,
        month: in_month.0 as usize,
        day: (in_month.1 + 1) as u64,
        hours: (secs % DAY) / 3600,
        minutes: (secs % 3600) / 60,
    }
}

/// Whether `year` is a leap year.
pub fn is_leap_year(year: u64) -> (b: bool)
    ensures
        b == leap_year(year as int),
{
    (year % 4 == 0 && year % 100 != 0) || year % 400 == 0
}

fn month_length(year: u64, month: usize) -> (d: u64)
    ensures
        d == days_in_month(year as int, month as int),
{
    if month == 1 {
        if is_leap_year(year) {
            29
        } else {
            28
        }
    } else if month == 3 || month == 5 || month == 8 || month == 10 {
        30
    } else {
        31
    }
}

/// The sum of the days of the twelve months is the days of the year.
proof fn lemma_year_is_twelve_months(year: int)
    ensures
        days_to_month(year, 12) == days_in_year(year),
{
    reveal_with_fuel(days_to_month, 13);
}

/// The calendar day and the minute of the day that lie `secs` seconds after
/// the start of 1970.
pub fn decompose_utc(secs: u64) -> (m: Moment)
    ensures
        m == moment(secs),
        moment_of(m, secs),
{
    let total: u64 = secs / DAY;
    let remaining: u64 = secs % DAY;
    let hours: u64 = remaining / 3600;
    let minutes: u64 = (remaining % 3600) / 60;
    assert(minutes == (secs % 3600) / 60) by {
        assert(secs % 3600 == (secs % DAY) % 3600) by (nonlinear_arith);
    }
    let mut days: u64 = total;
    let mut year: u64 = 1970;
    loop
        invariant
            1970 <= year,
            year + days <= 1970 + total,
            total <= u64::MAX / 86400,
            days_to_year(year as int) + days == total,
            year_split(total as int, 1970) == year_split(days as int, year as int),
        ensures
            year_split(total as int, 1970) == (year as int, days as int),
            days < days_in_year(year as int),
        decreases days,
    {
        let diy: u64 = if is_leap_year(year) {
            366
        } else {
            365
        };
        if days < diy {
            break ;
        }
        days -= diy;
        year += 1;
    }
    let mut month: usize = 0;
    let ghost in_year = days;
    proof {
        lemma_year_is_twelve_months(year as int);
    }
    while month < 11 && days >= month_length(year, month)
        invariant
            month <= 11,
            month_split(year as int, in_year as int, 0) == month_split(
                year as int,
                days as int,
                month as int,
            ),
            days_to_year(year as int) + days_to_month(year as int, month as int) + days == total,
            days_to_month(year as int, month as int) + days < days_to_month(year as int, 12),
        decreases 11 - month,
    {
        days -= month_length(year, month);
        month += 1;
    }
    Moment { year, month, day: days + 1, hours, minutes }
}

/// The English short name of a month, counted from 0 for January.
pub open spec fn month_name(month: int) -> Seq<char> {
    if month == 0 {
        "Jan"@
    } else if month == 1 {
        "Feb"@
    } else if month == 2 {
        "Mar"@
    } else if month == 3 {
        "Apr"@
    } else if month == 4 {
        "May"@
    } else if month == 5 {
        "Jun"@
    } else if month == 6 {
        "Jul"@
    } else if month == 7 {
        "Aug"@
    } else if month == 8 {
        "Sep"@
    } else if month == 9 {
        "Oct"@
    } else if month == 10 {
        "Nov"@
    } else {
        "Dec"@
    }
}

fn month_name_of(month: usize) -> (r: Vec<char>)
    ensures
        r@ == month_name(month as int),
{
    let name = if month == 0 {
        "Jan"
    } else if month == 1 {
        "Feb"
    } else if month == 2 {
        "Mar"
    } else if month == 3 {
        "Apr"
    } else if month == 4 {
        "May"
    } else if month == 5 {
        "Jun"
    } else if month == 6 {
        "Jul"
    } else if month == 7 {
        "Aug"
    } else if month == 8 {
        "Sep"
    } else if month == 9 {
        "Oct"
    } else if month == 10 {
        "Nov"
    } else {
        "Dec"
    };
    chars_of(name)
}

/// A moment as a header states it: `30 Jan 2026 08:31 UTC`.
pub open spec fn timestamp_text(m: Moment) -> Seq<char> {
    decimal(m.day as nat) + " "@ + month_name(m.month as int) + " "@ + decimal(m.year as nat)
        + " "@ + two_digits(m.hours as nat) + ":"@ + two_digits(m.minutes as nat) + " UTC"@
}

/// A moment as a version number: year, month, day, hour and minute, each
/// but the year in two digits.
pub open spec fn version_text(m: Moment) -> Seq<char> {
    decimal(m.year as nat) + two_digits((m.month + 1) as nat) + two_digits(m.day as nat)
        + two_digits(m.hours as nat) + two_digits(m.minutes as nat)
}

fn timestamp_of(m: &Moment) -> (r: Vec<char>)
    ensures
        r@ == timestamp_text(*m),
{
    let mut r = to_decimal(m.day);
    append(&mut r, &chars_of(" "));
    append(&mut r, &month_name_of(m.month));
    append(&mut r, &chars_of(" "));
    append(&mut r, &to_decimal(m.year));
    append(&mut r, &chars_of(" "));
    append(&mut r, &to_two_digits(m.hours));
    append(&mut r, &chars_of(":"));
    append(&mut r, &to_two_digits(m.minutes));
    append(&mut r, &chars_of(" UTC"));
    r
}

fn version_of(m: &Moment) -> (r: Vec<char>)
    requires
        m.month < 12,
    ensures
        r@ == version_text(*m),
{
    let month: u64 = m.month as u64 + 1;
    let mut r = to_decimal(m.year);
    append(&mut r, &to_two_digits(month));
    append(&mut r, &to_two_digits(m.day));
    append(&mut r, &to_two_digits(m.hours));
    append(&mut r, &to_two_digits(m.minutes));
    r
}

/// Writes the moment `secs` seconds after the start of 1970 as a header
/// states it: `30 Jan 2026 08:31 UTC`.
pub fn format_timestamp_utc(secs: u64) -> (r: String)
    ensures
        r@ == timestamp_text(moment(secs)),
{
    let m = decompose_utc(secs);
    string_of(&timestamp_of(&m))
}

/// Writes the moment `secs` seconds after the start of 1970 as a version
/// number: `202601300831`.
pub fn format_version_utc(secs: u64) -> (r: String)
    ensures
        r@ == version_text(moment(secs)),
{
    let m = decompose_utc(secs);
    string_of(&version_of(&m))
}

/// The moment that `moment` names for `secs` is a day of the calendar, and
/// it is the day that lies `secs / 86400` days after the first day of 1970.
pub proof fn lemma_moment(secs: u64)
    ensures
        moment_of(moment(secs), secs),
{
    let total = secs as int / DAY as int;
    lemma_year_split(total, 1970);
    let in_year = year_split(total, 1970);
    lemma_year_is_twelve_months(in_year.0);
    lemma_month_split(in_year.0, in_year.1, 0);
}

/// What `year_split` returns: a year not before the one counted from, and a
/// day of that year; the days before that year and the day's number add up
/// to the days that were split.
proof fn lemma_year_split(days: int, year: int)
    requires
        0 <= days,
        1970 <= year,
    ensures
        year <= year_split(days, year).0 <= year + days,
        0 <= year_split(days, year).1 < days_in_year(year_split(days, year).0),
        days_to_year(year_split(days, year).0) + year_split(days, year).1 == days_to_year(year)
            + days,
    decreases days,
{
    if days >= days_in_year(year) {
        lemma_year_split(days - days_in_year(year), year + 1);
    }
}

/// What `month_split` returns: a month not before the one counted from, and
/// a day of that month; the days before that month and the day's number add
/// up to the days that were split.
proof fn lemma_month_split(year: int, days: int, month: int)
    requires
        0 <= month <= 11,
        0 <= days,
        days_to_month(year, month) + days < days_to_month(year, 12),
    ensures
        month <= month_split(year, days, month).0 <= 11,
        0 <= month_split(year, days, month).1 < days_in_month(
            year,
            month_split(year, days, month).0,
        ),
        days_to_month(year, month_split(year, days, month).0) + month_split(year, days, month).1
            == days_to_month(year, month) + days,
    decreases 11 - month,
{
    if month >= 11 {
    } else if days >= days_in_month(year, month) {
        lemma_month_split(year, days - days_in_month(year, month), month + 1);
    }
}

/// The comment mark that a header line begins with: `#` where its first
/// character that is no white space is `#`, else `!`.
pub open spec fn header_mark(line: Seq<char>) -> Seq<char> {
    if is_prefix(trimmed_start(line), "#"@) {
        "#"@
    } else {
        "!"@
    }
}

/// The label of a timestamp line.
pub open spec fn timestamp_label(line: Seq<char>) -> Seq<char> {
    if occurs(ascii_lowered(line), "last modified:"@) {
        "Last modified"@
    } else {
        "Last updated"@
    }
}

/// The timestamp line that takes the place of `line` at the moment `secs`
/// seconds after the start of 1970, if `line` is a timestamp line.
pub open spec fn timestamp_line_for(line: Seq<char>, secs: u64) -> Option<Seq<char>> {
    if timestamp_line(line) {
        Some(
            header_mark(line) + " "@ + timestamp_label(line) + ": "@ + timestamp_text(
                moment(secs),
            ),
        )
    } else {
        None
    }
}

/// The version line that takes the place of `line` at the moment `secs`
/// seconds after the start of 1970, if `line` is a version line.
pub open spec fn version_line_for(line: Seq<char>, secs: u64) -> Option<Seq<char>> {
    if version_line(line) {
        Some(header_mark(line) + " Version: "@ + version_text(moment(secs)))
    } else {
        None
    }
}

fn header_mark_of(line: &Vec<char>) -> (r: Vec<char>)
    ensures
        r@ == header_mark(line@),
{
    if starts_with_str(&trim_start(line), "#") {
        chars_of("#")
    } else {
        chars_of("!")
    }
}

/// The timestamp line that takes the place of `line` at the moment `now`
/// seconds after the start of 1970; `None` when `line` is no timestamp
/// line.
pub fn timestamp_line_at(line: &str, now: u64) -> (r: Option<String>)
    ensures
        match r {
            Some(t) => timestamp_line_for(line@, now) == Some(t@),
            None => timestamp_line_for(line@, now) is None,
        },
{
    let l = chars_of(line);
    let lower = ascii_lowercase(&l);
    let modified = contains_str(&lower, "last modified:");
    if !modified && !contains_str(&lower, "last updated:") {
        return None;
    }
    let mut r = header_mark_of(&l);
    append(&mut r, &chars_of(" "));
    if modified {
        append(&mut r, &chars_of("Last modified"));
    } else {
        append(&mut r, &chars_of("Last updated"));
    }
    append(&mut r, &chars_of(": "));
    append(&mut r, &chars_of(format_timestamp_utc(now).as_str()));
    Some(string_of(&r))
}

/// The version line that takes the place of `line` at the moment `now`
/// seconds after the start of 1970; `None` when `line` is no version line.
pub fn version_line_at(line: &str, now: u64) -> (r: Option<String>)
    ensures
        match r {
            Some(t) => version_line_for(line@, now) == Some(t@),
            None => version_line_for(line@, now) is None,
        },
{
    if !is_version_line(line) {
        return None;
    }
    let mut r = header_mark_of(&chars_of(line));
    append(&mut r, &chars_of(" Version: "));
    append(&mut r, &chars_of(format_version_utc(now).as_str()));
    Some(string_of(&r))
}

#[verifier::external_type_specification]
#[verifier::external_body]
pub struct ExSystemTime(std::time::SystemTime);

/// `SystemTime::now` of std: the time that the system's clock shows.
/// Nothing is known of it.
#[verifier::external_body]
fn clock() -> (t: std::time::SystemTime) {
    std::time::SystemTime::now()
}

/// `SystemTime::duration_since` of std, counted from `UNIX_EPOCH`: the time
/// from the start of 1970 to `t`; `None` where `t` lies before it. Nothing
/// is known of it.
#[verifier::external_body]
fn since_epoch(t: &std::time::SystemTime) -> (d: Option<std::time::Duration>) {
    match t.duration_since(std::time::UNIX_EPOCH) {
        Ok(d) => Some(d),
        Err(_) => None,
    }
}

/// `Duration::as_secs` of std: the whole seconds of a duration. Nothing is
/// known of the number.
#[verifier::external_body]
fn whole_seconds(d: &std::time::Duration) -> (secs: u64) {
    d.as_secs()
}

/// The whole seconds from the start of 1970 to now, as the system's clock
/// shows it; 0 where the clock shows a time before 1970.
pub fn unix_now() -> u64 {
    let elapsed = match since_epoch(&clock()) {
        Some(d) => Some(whole_seconds(&d)),
        None => None,
    };
    seconds_or_epoch(elapsed)
}

/// The moment that a reading of the clock stands for: the seconds it shows
/// since the start of 1970, and the start of 1970 itself where it shows a
/// time before that.
pub open spec fn seconds_shown(elapsed: Option<u64>) -> u64 {
    match elapsed {
        Some(secs) => secs,
        None => 0,
    }
}

/// The seconds since the start of 1970 that a reading of the clock stands
/// for, given the seconds that the clock shows, if it shows a time that is
/// not before 1970.
pub fn seconds_or_epoch(elapsed: Option<u64>) -> (secs: u64)
    ensures
        secs == seconds_shown(elapsed),
{
    match elapsed {
        Some(secs) => secs,
        None => 0,
    }
}

/// The timestamp line that takes the place of `line` now; `None` when
/// `line` is no timestamp line.
pub fn update_timestamp_line(line: &str) -> (r: Option<String>)
    ensures
        match r {
            Some(t) => exists|secs: u64| timestamp_line_for(line@, secs) == Some(t@),
            None => !timestamp_line(line@),
        },
{
    timestamp_line_at(line, unix_now())
}

/// The version line that takes the place of `line` now; `None` when `line`
/// is no version line.
pub fn update_version_line(line: &str) -> (r: Option<String>)
    ensures
        match r {
            Some(t) => exists|secs: u64| version_line_for(line@, secs) == Some(t@),
            None => !version_line(line@),
        },
{
    version_line_at(line, unix_now())
}

/// The test for being a timestamp line.
pub open spec fn timestamp_test() -> spec_fn(Seq<char>) -> bool {
    |line: Seq<char>| timestamp_line(line)
}

/// What a timestamp line states: what follows its first colon, without
/// white space around it.
pub open spec fn stated(line: Seq<char>) -> Option<Seq<char>> {
    match index_of(line, seq![':']) {
        Some(c) => Some(trimmed(line.subrange(c + 1, line.len() as int))),
        None => None,
    }
}

/// A timestamp line with the timestamp `stamp` in place of its own: the
/// line up to its first colon, a colon, a blank and the timestamp.
pub open spec fn restamped(line: Seq<char>, mark: Seq<char>, stamp: Seq<char>) -> Seq<char> {
    match index_of(line, seq![':']) {
        Some(c) => line.subrange(0, c) + ": "@ + stamp,
        None => fresh_stamp(mark, stamp),
    }
}

/// A new timestamp line.
pub open spec fn fresh_stamp(mark: Seq<char>, stamp: Seq<char>) -> Seq<char> {
    mark + " Last modified: "@ + stamp
}

/// The lines of a list with the timestamp `stamp`: in place of that of its
/// first timestamp line, or, where it has none, on a new line after its
/// first line.
pub open spec fn stamped_lines(list: Seq<Seq<char>>, mark: Seq<char>, stamp: Seq<char>) -> Seq<
    Seq<char>,
> {
    match first_where(list, timestamp_test()) {
        Some(i) => list.update(i, restamped(list[i], mark, stamp)),
        None => if list.len() == 0 {
            list
        } else {
            list.take(1).push(fresh_stamp(mark, stamp)) + list.skip(1)
        },
    }
}

/// The comment mark of a kind of list: `#` for a hosts file, else `!`.
pub open spec fn list_mark(use_hash: bool) -> Seq<char> {
    if use_hash {
        "#"@
    } else {
        "!"@
    }
}

/// A list with the timestamp of the moment `secs` seconds after the start
/// of 1970, laid out with the line ending it came with, and closed by one
/// when it was.
pub open spec fn stamped_text(content: Seq<char>, use_hash: bool, secs: u64) -> Seq<char> {
    laid_out(
        stamped_lines(rows(content), list_mark(use_hash), timestamp_text(moment(secs))),
        line_ending(content),
        content.len() > 0 && content.last() == '\n',
    )
}

/// A list that was given a new timestamp: its text, the timestamp it had
/// and the one it has.
pub struct Stamped {
    pub content: String,
    pub old: Option<String>,
    pub new: String,
}

/// The timestamp that the list states in its first timestamp line.
pub open spec fn old_stamp(content: Seq<char>) -> Option<Seq<char>> {
    match first_where(rows(content), timestamp_test()) {
        Some(i) => stated(rows(content)[i]),
        None => None,
    }
}

fn find_first_timestamp(list: &Vec<Vec<char>>) -> (r: Option<usize>)
    ensures
        match r {
            Some(i) => first_where(texts(list@), timestamp_test()) == Some(i as int) && i
                < list.len(),
            None => first_where(texts(list@), timestamp_test()) is None,
        },
{
    let ghost all = texts(list@);
    let mut i: usize = 0;
    while i < list.len()
        invariant
            i <= list.len(),
            all == texts(list@),
            first_where(all.take(i as int), timestamp_test()) is None,
        decreases list.len() - i,
    {
        proof {
            assert(all.take(i + 1).drop_last() =~= all.take(i as int));
        }
        if is_timestamp_line(string_of(&list[i]).as_str()) {
            proof {
                crate::text::lemma_first_where_extends(all, timestamp_test(), i + 1);
            }
            return Some(i);
        }
        i += 1;
    }
    assert(all.take(all.len() as int) =~= all);
    None
}

/// Gives a list the timestamp of the moment `now` seconds after the start
/// of 1970. `None` for an empty list and for one that this leaves as it is.
pub fn stamp(content: &str, use_hash: bool, now: u64) -> (r: Option<Stamped>)
    ensures
        match r {
            Some(s) => content@.len() > 0 && s.content@ == stamped_text(content@, use_hash, now)
                && s.content@ != content@ && s.new@ == timestamp_text(moment(now)) && match s.old {
                Some(o) => old_stamp(content@) == Some(o@),
                None => old_stamp(content@) is None,
            },
            None => content@.len() == 0 || stamped_text(content@, use_hash, now) == content@,
        },
{
    let text = chars_of(content);
    if text.len() == 0 {
        return None;
    }
    let ending = line_ending_of(&text);
    let mark = if use_hash {
        chars_of("#")
    } else {
        chars_of("!")
    };
    let new = format_timestamp_utc(now);
    let new_chars = chars_of(new.as_str());
    let mut list = lines(&text);
    let ghost all = texts(list@);
    let mut fresh = copy(&mark);
    append(&mut fresh, &chars_of(" Last modified: "));
    append(&mut fresh, &new_chars);
    let colon: Vec<char> = vec![':'];
    assert(colon@ =~= seq![':']);
    let old: Option<String>;
    match find_first_timestamp(&list) {
        Some(i) => {
            let line = copy(&list[i]);
            proof {
                lemma_index_from(line@, colon@, 0);
            }
            let n: usize = line.len();
            let restamped_line = match crate::text::find(&line, &colon) {
                Some(c) => {
                    old = Some(string_of(&trim(&slice(&line, c + 1, line.len()))));
                    let mut l = slice(&line, 0, c);
                    append(&mut l, &chars_of(": "));
                    append(&mut l, &new_chars);
                    l
                },
                None => {
                    old = None;
                    fresh
                },
            };
            list[i] = restamped_line;
            assert(texts(list@) =~= all.update(i as int, restamped(all[i as int], mark@, new@)));
        },
        None => {
            old = None;
            proof {
                crate::text::lemma_rows_nonempty(text@);
            }
            list.insert(1, fresh);
            assert(texts(list@) =~= all.take(1).push(fresh_stamp(mark@, new@)) + all.skip(1));
        },
    }
    let out = lay_out(&list, &ending, crate::text::ends_with_char(&text, '\n'));
    if same(&out, &text) {
        return None;
    }
    Some(Stamped { content: string_of(&out), old, new })
}

} // verus!
