//! When a scheduled task runs next.
//!
//! A schedule is a JSON array; each entry is one of
//! `{"type":"once","at":<unix seconds or time text>}`,
//! `{"type":"hourly","minute":30}`, `{"type":"daily","time":"09:00"}`,
//! `{"type":"weekly","weekdays":[1,3],"time":"09:00"}` (1 = Monday .. 7 = Sunday).
//! Local times follow the machine's time zone, which `chrono` consults.
use vstd::prelude::*;
use chrono::{Datelike, TimeZone, Timelike};

use crate::json::{json_leaf, json_pointer, leaf_view, str_at, JsonLeaf, JsonLeafView};
use crate::text::{
    trim_start, trim_end, ends_with, decimal, parse_u32, parse_u32_spec, push_all, split_from, str_chars, string_from_chars, trim,
    trim_chars, u64_decimal, find_char_from, lemma_find_from_bounds, slice_range, chars_eq,
};

verus! {

/// Bound on the Unix timestamps that `chrono` can represent (its dates run
/// to about year 262 000 either way).
pub open spec fn ts_bound() -> int {
    10_000_000_000_000
}

/// A local date and time read from a Unix timestamp.
pub struct LocalMoment {
    pub year: i32,
    pub month: u32,
    pub day: u32,
    pub hour: u32,
    /// 1 = Monday .. 7 = Sunday.
    pub weekday: u32,
}

/// Days from 1970-01-01 to a date of the proleptic Gregorian calendar.
pub open spec fn civil_days(year: int, month: int, day: int) -> int {
    let y = if month <= 2 { year - 1 } else { year };
    let era = y / 400;
    let yoe = y - era * 400;
    let mp = if month > 2 { month - 3 } else { month + 9 };
    let doy = (153 * mp + 2) / 5 + day - 1;
    let doe = yoe * 365 + yoe / 4 - yoe / 100 + doy;
    era * 146097 + doe - 719468
}

/// Seconds from 1970-01-01 00:00:00 to a date and time, read on a clock
/// without offset.
pub open spec fn civil_seconds(year: int, month: int, day: int, hour: int, minute: int, second: int) -> int {
    civil_days(year, month, day) * 86400 + hour * 3600 + minute * 60 + second
}

/// Weekday of a date, 1 = Monday .. 7 = Sunday (1970-01-01 was a Thursday).
pub open spec fn civil_weekday(year: int, month: int, day: int) -> int {
    (civil_days(year, month, day) + 3) % 7 + 1
}

/// An offset from UTC that a local clock can have: under a day either way.
pub open spec fn within_day(offset: int) -> bool {
    -86400 < offset < 86400
}

/// `m` is how a local clock reads the instant `ts`, to the hour: a date with
/// its weekday, and the hour, for some offset from UTC under a day.
pub open spec fn moment_of(ts: int, m: LocalMoment) -> bool {
    &&& 1 <= m.month <= 12 && 1 <= m.day <= 31 && m.hour < 24
    &&& 1 <= m.weekday <= 7
    &&& m.weekday == civil_weekday(m.year as int, m.month as int, m.day as int)
    &&& exists|offset: int| #[trigger] within_day(offset)
        && civil_seconds(m.year as int, m.month as int, m.day as int, m.hour as int, 0, 0) <= ts + offset
        && ts + offset < civil_seconds(m.year as int, m.month as int, m.day as int, m.hour as int, 0, 0) + 3600
}

/// `t` is an instant at which a local clock reads the given date and time:
/// a valid date and time, read at `t` moved by some offset under a day,
/// with `t` in `chrono`'s range.
pub open spec fn stamp_of(year: i32, month: u32, day: u32, hour: u32, minute: u32, second: u32, t: int) -> bool {
    &&& 1 <= month <= 12 && 1 <= day <= 31 && hour < 24 && minute < 60 && second < 60
    &&& -ts_bound() < t < ts_bound()
    &&& exists|offset: int| #[trigger] within_day(offset)
        && t + offset == civil_seconds(year as int, month as int, day as int, hour as int, minute as int, second as int)
}

/// `DateTime::from_timestamp(ts, 0)` seen in the local time zone
/// (`with_timezone(&Local)`): its date, hour and weekday
/// (`number_from_monday`). Which reading comes back depends on the machine's
/// time zone, so the result has no name; the contract claims what holds in
/// every zone: the reading is of the instant `ts` under the zone's offset,
/// which `chrono` keeps under a day (`FixedOffset`), in the proleptic
/// Gregorian calendar.
#[verifier::external_body]
fn local_moment(ts: i64) -> (r: Option<LocalMoment>)
    ensures
        r matches Some(m) ==> moment_of(ts as int, m),
{
    let dt = chrono::DateTime::from_timestamp(ts, 0)?.with_timezone(&chrono::Local);
    Some(LocalMoment { year: dt.year(), month: dt.month(), day: dt.day(), hour: dt.hour(), weekday: dt.weekday().number_from_monday() })
}

/// `NaiveDate::from_ymd_opt(..)?.and_hms_nano_opt(..)?` read in the local time zone
/// with `Local.from_local_datetime(..).single()`, as a Unix timestamp. Which
/// instant comes back, and whether one does (gaps and folds give `None`),
/// depend on the machine's time zone, so the result has no name; the contract
/// claims what holds in every zone: the date and time were valid, and the
/// instant is one at which the local clock, under an offset of less than a
/// day, reads them, within `chrono`'s range.
#[verifier::external_body]
fn local_timestamp(year: i32, month: u32, day: u32, hour: u32, minute: u32, second: u32, nano: u32) -> (r: Option<i64>)
    ensures
        r matches Some(t) ==> stamp_of(year, month, day, hour, minute, second, t as int),
{
    let naive = chrono::NaiveDate::from_ymd_opt(year, month, day)?.and_hms_nano_opt(hour, minute, second, nano)?;
    Some(chrono::Local.from_local_datetime(&naive).single()?.timestamp())
}

/// The first run at or after a candidate: a candidate not later than `after`
/// moves on by `step` seconds.
pub open spec fn roll_forward(candidate: int, after: int, step: int) -> int {
    if candidate <= after {
        candidate + step
    } else {
        candidate
    }
}

/// Days from weekday `today` to weekday `target` (both 1..7), in 0..7.
pub open spec fn days_ahead(target: int, today: int) -> int {
    (target - today) % 7
}

/// The next weekly run from the candidate on today's date: on a later weekday
/// it moves by whole days, on today it moves a week once it has passed.
pub open spec fn weekly_from(candidate: int, after: int, ahead: int) -> int {
    if ahead > 0 {
        candidate + ahead * 86400
    } else if candidate <= after {
        candidate + 7 * 86400
    } else {
        candidate
    }
}

/// The earlier of two optional times.
pub open spec fn earliest(a: Option<i64>, b: Option<i64>) -> Option<i64> {
    match (a, b) {
        (Some(x), Some(y)) => Some(if x <= y { x } else { y }),
        (Some(x), None) => Some(x),
        (None, Some(y)) => Some(y),
        (None, None) => None,
    }
}

/// The earlier of two optional times.
pub fn earlier(a: Option<i64>, b: Option<i64>) -> (r: Option<i64>)
    ensures
        r == earliest(a, b),
{
    match (a, b) {
        (Some(x), Some(y)) => Some(if x <= y { x } else { y }),
        (Some(x), None) => Some(x),
        (None, Some(y)) => Some(y),
        (None, None) => None,
    }
}

/// Moves a candidate past `after` by `step` seconds.
pub fn roll_forward_exec(candidate: i64, after: i64, step: i64) -> (r: i64)
    requires
        -ts_bound() < candidate < ts_bound(),
        0 <= step <= 7 * 86400,
    ensures
        r == roll_forward(candidate as int, after as int, step as int),
{
    if candidate <= after {
        candidate + step
    } else {
        candidate
    }
}

/// Days from weekday `today` to weekday `target`.
pub fn days_ahead_exec(target: i64, today: i64) -> (r: i64)
    requires
        1 <= target <= 7,
        1 <= today <= 7,
    ensures
        r == days_ahead(target as int, today as int),
        0 <= r < 7,
{
    let d = target - today;
    if d < 0 {
        d + 7
    } else {
        d
    }
}

/// The next weekly run from a candidate on today's date.
pub fn weekly_from_exec(candidate: i64, after: i64, ahead: i64) -> (r: i64)
    requires
        -ts_bound() < candidate < ts_bound(),
        0 <= ahead < 7,
    ensures
        r == weekly_from(candidate as int, after as int, ahead as int),
{
    if ahead > 0 {
        candidate + ahead * 86400
    } else if candidate <= after {
        candidate + 7 * 86400
    } else {
        candidate
    }
}

/// `HH:MM`: the first two `:`-separated pieces read as numbers (further pieces
/// are ignored), with the hour below 24 and the minute below 60.
pub open spec fn hhmm(time: Seq<char>) -> Option<(u32, u32)> {
    let parts = split_from(time, ':', 0);
    if parts.len() < 2 {
        None
    } else {
        match (parse_u32_spec(parts[0]), parse_u32_spec(parts[1])) {
            (Some(h), Some(m)) => if h < 24 && m < 60 { Some((h, m)) } else { None },
            _ => None,
        }
    }
}

/// Reads a `HH:MM` time of day.
pub fn parse_hhmm(time: &str) -> (r: Option<(u32, u32)>)
    ensures
        r == hhmm(time@),
{
    let t = str_chars(time);
    let first_end = find_char_from(t.as_slice(), ':', 0);
    proof {
        lemma_find_from_bounds(t@, seq![':'], 0);
    }
    let first_end = match first_end {
        Some(e) => e,
        None => {
            assert(split_from(t@, ':', 0) =~= seq![t@.skip(0)]);
            return None;
        },
    };
    let second_end = find_char_from(t.as_slice(), ':', first_end + 1);
    proof {
        lemma_find_from_bounds(t@, seq![':'], first_end + 1);
    }
    let e2 = match second_end {
        Some(e) => e,
        None => t.len(),
    };
    let p0 = slice_range(t.as_slice(), 0, first_end);
    let p1 = slice_range(t.as_slice(), first_end + 1, e2);
    proof {
        let parts = split_from(t@, ':', 0);
        let rest = split_from(t@, ':', first_end + 1);
        assert(parts == seq![p0@] + rest);
        if second_end is None {
            assert(p1@ =~= t@.skip(first_end + 1));
            assert(rest =~= seq![p1@]);
        } else {
            assert(rest == seq![p1@] + split_from(t@, ':', e2 + 1));
        }
        assert(parts[0] == p0@);
        assert(parts[1] == rest[0]);
    }
    let h = parse_u32(p0.as_slice());
    let m = parse_u32(p1.as_slice());
    match (h, m) {
        (Some(h), Some(m)) => if h < 24 && m < 60 { Some((h, m)) } else { None },
        _ => None,
    }
}

/// The minute an hourly entry runs at: its `minute`, at most 59.
pub open spec fn capped_minute(minute: u32) -> u32 {
    if minute < 59 { minute } else { 59 }
}

/// What an hourly entry at `minute` can give after `after`: nothing (the
/// local clock gave no reading), or, with `m` the local date and hour of
/// `after` and `c` the instant at which the local clock reads that date and
/// hour at the minute (capped at 59), second 0: `c` when it is later than
/// `after`, else an hour on.
pub open spec fn hourly_outcome(after: int, minute: u32, x: Option<i64>) -> bool {
    x matches Some(t) ==> exists|m: LocalMoment, c: int|
        #![trigger moment_of(after, m), stamp_of(m.year, m.month, m.day, m.hour, capped_minute(minute), 0, c)]
        moment_of(after, m) && stamp_of(m.year, m.month, m.day, m.hour, capped_minute(minute), 0, c)
        && t == roll_forward(c, after, 3600)
}

/// What a daily entry at `time` can give after `after`: nothing when the
/// time does not read as `HH:MM`; otherwise nothing, or, with `m` the local
/// date of `after` and `c` the instant at which the local clock reads that
/// date at `HH:MM:00`: `c` when it is later than `after`, else a day on.
pub open spec fn daily_outcome(after: int, time: Seq<char>, x: Option<i64>) -> bool {
    &&& hhmm(time) is None ==> x is None
    &&& x matches Some(t) ==> (hhmm(time) matches Some((h, mi)) && exists|m: LocalMoment, c: int|
        #![trigger moment_of(after, m), stamp_of(m.year, m.month, m.day, h, mi, 0, c)]
        moment_of(after, m) && stamp_of(m.year, m.month, m.day, h, mi, 0, c)
        && t == roll_forward(c, after, 86400))
}

/// What a weekly entry on `days` at `time` can give after `after`: nothing
/// when the time does not read as `HH:MM` or no day is a valid weekday;
/// otherwise nothing, or, with `m` the local date and weekday of `after` and
/// `c` the instant at which the local clock reads that date at `HH:MM:00`,
/// the earliest run over the valid days (see [`weekly_best`]).
pub open spec fn weekly_outcome(after: int, days: Seq<u32>, time: Seq<char>, x: Option<i64>) -> bool {
    &&& hhmm(time) is None ==> x is None
    &&& (forall|i: int| 0 <= i < days.len() ==> !(1 <= #[trigger] days[i] <= 7)) ==> x is None
    &&& x matches Some(t) ==> (hhmm(time) matches Some((h, mi)) && exists|m: LocalMoment, c: int|
        #![trigger moment_of(after, m), stamp_of(m.year, m.month, m.day, h, mi, 0, c)]
        moment_of(after, m) && stamp_of(m.year, m.month, m.day, h, mi, 0, c)
        && weekly_best(days, m.weekday as int, c, after) == Some(t as int))
}

/// Next run of an hourly entry at minute `minute`: this hour's minute (at
/// most 59), or the next hour's once that has passed.
fn hourly_next(after: i64, minute: u32) -> (r: Option<i64>)
    ensures
        r matches Some(t) ==> -ts_bound() < t < ts_bound() + 7 * 86400,
        hourly_outcome(after as int, minute, r),
{
    let m = local_moment(after)?;
    let capped = if minute < 59 { minute } else { 59 };
    let candidate = local_timestamp(m.year, m.month, m.day, m.hour, capped, 0, 0)?;
    let t = roll_forward_exec(candidate, after, 3600);
    assert(capped == capped_minute(minute));
    assert(moment_of(after as int, m) && stamp_of(m.year, m.month, m.day, m.hour, capped_minute(minute), 0, candidate as int));
    Some(t)
}

/// Next run of a daily entry at `HH:MM`: today's, or tomorrow's once it has
/// passed.
fn daily_next(after: i64, hhmm_text: &str) -> (r: Option<i64>)
    ensures
        r matches Some(t) ==> -ts_bound() < t < ts_bound() + 7 * 86400,
        daily_outcome(after as int, hhmm_text@, r),
{
    let (hour, minute) = parse_hhmm(hhmm_text)?;
    let m = local_moment(after)?;
    let candidate = local_timestamp(m.year, m.month, m.day, hour, minute, 0, 0)?;
    let t = roll_forward_exec(candidate, after, 86400);
    assert(moment_of(after as int, m) && stamp_of(m.year, m.month, m.day, hour, minute, 0, candidate as int));
    Some(t)
}

/// The earliest weekly run over the listed weekdays that are valid (1..7),
/// from today's weekday `today` and the candidate at the entry's time on
/// today's date.
pub open spec fn weekly_best(days: Seq<u32>, today: int, candidate: int, after: int) -> Option<int>
    decreases days.len(),
{
    if days.len() == 0 {
        None
    } else {
        let prev = weekly_best(days.drop_last(), today, candidate, after);
        let w = days.last();
        if 1 <= w <= 7 {
            let t = weekly_from(candidate, after, days_ahead(w as int, today));
            match prev {
                Some(p) => Some(if p <= t { p } else { t }),
                None => Some(t),
            }
        } else {
            prev
        }
    }
}

/// The next run of a weekly entry from today's weekday (1 = Monday .. 7 =
/// Sunday) and the entry's time on today's date (`candidate`): the earliest
/// over its valid weekdays, none when it lists no valid weekday.
pub fn weekly_next_from(after: i64, today: u32, weekdays: &Vec<u32>, candidate: i64) -> (r: Option<i64>)
    requires
        1 <= today <= 7,
        -ts_bound() < candidate < ts_bound(),
    ensures
        match r {
            Some(t) => weekly_best(weekdays@, today as int, candidate as int, after as int) == Some(t as int),
            None => weekly_best(weekdays@, today as int, candidate as int, after as int) is None,
        },
        r matches Some(t) ==> -ts_bound() < t < ts_bound() + 7 * 86400,
{
    let mut best: Option<i64> = None;
    let mut i: usize = 0;
    while i < weekdays.len()
        invariant
            i <= weekdays@.len(),
            1 <= today <= 7,
            -ts_bound() < candidate < ts_bound(),
            match best {
                Some(t) => weekly_best(weekdays@.take(i as int), today as int, candidate as int, after as int) == Some(t as int)
                    && -ts_bound() < t < ts_bound() + 7 * 86400,
                None => weekly_best(weekdays@.take(i as int), today as int, candidate as int, after as int) is None,
            },
        decreases weekdays@.len() - i,
    {
        proof {
            assert(weekdays@.take(i + 1).drop_last() =~= weekdays@.take(i as int));
        }
        let weekday = weekdays[i];
        if 1 <= weekday && weekday <= 7 {
            let ahead = days_ahead_exec(weekday as i64, today as i64);
            let t = weekly_from_exec(candidate, after, ahead);
            best = earlier(best, Some(t));
        }
        i = i + 1;
    }
    proof {
        assert(weekdays@.take(weekdays@.len() as int) =~= weekdays@);
    }
    best
}

/// Next run of a weekly entry: the earliest over its valid weekdays (1..7).
fn weekly_next(after: i64, weekdays: &Vec<u32>, hhmm_text: &str) -> (r: Option<i64>)
    ensures
        r matches Some(t) ==> -ts_bound() < t < ts_bound() + 7 * 86400,
        weekly_outcome(after as int, weekdays@, hhmm_text@, r),
{
    let (hour, minute) = parse_hhmm(hhmm_text)?;
    let m = local_moment(after)?;
    let candidate = local_timestamp(m.year, m.month, m.day, hour, minute, 0, 0)?;
    let r = weekly_next_from(after, m.weekday, weekdays, candidate);
    proof {
        lemma_weekly_best_none(weekdays@, m.weekday as int, candidate as int, after as int);
        assert(moment_of(after as int, m) && stamp_of(m.year, m.month, m.day, hour, minute, 0, candidate as int));
    }
    r
}

/// Without a valid weekday there is no weekly run.
proof fn lemma_weekly_best_none(days: Seq<u32>, today: int, candidate: int, after: int)
    ensures
        (forall|i: int| 0 <= i < days.len() ==> !(1 <= #[trigger] days[i] <= 7))
            ==> weekly_best(days, today, candidate, after) is None,
    decreases days.len(),
{
    if days.len() > 0 {
        lemma_weekly_best_none(days.drop_last(), today, candidate, after);
        if forall|i: int| 0 <= i < days.len() ==> !(1 <= #[trigger] days[i] <= 7) {
            assert forall|i: int| 0 <= i < days.drop_last().len() implies !(1 <= #[trigger] days.drop_last()[i] <= 7) by {
                assert(days.drop_last()[i] == days[i]);
            }
            assert(!(1 <= days[days.len() - 1] <= 7));
        }
    }
}

/// JSON Pointer of member `key` of schedule entry `i`.
pub open spec fn entry_ptr(i: nat, key: Seq<char>) -> Seq<char> {
    seq!['/'] + decimal(i) + seq!['/'] + key
}

fn entry_pointer(i: usize, key: &str) -> (r: String)
    ensures
        r@ == entry_ptr(i as nat, key@),
{
    let mut v: Vec<char> = Vec::new();
    v.push('/');
    let d = u64_decimal(i as u64);
    push_all(&mut v, d.as_slice());
    v.push('/');
    let k = str_chars(key);
    push_all(&mut v, k.as_slice());
    assert(v@ =~= entry_ptr(i as nat, key@));
    string_from_chars(v.as_slice())
}

/// Length of the schedule array, if the document is an array.
pub open spec fn schedule_len(schedule: Seq<char>) -> Option<nat> {
    match json_leaf(schedule, Seq::empty()) {
        Some(JsonLeafView::Array(n)) => Some(n),
        _ => None,
    }
}

fn schedule_length(schedule: &str) -> (r: Option<usize>)
    ensures
        match r {
            Some(n) => schedule_len(schedule@) == Some(n as nat),
            None => schedule_len(schedule@) is None,
        },
{
    let root = String::new();
    match json_pointer(schedule, root.as_str()) {
        Some(JsonLeaf::Array(n)) => Some(n),
        _ => None,
    }
}

/// The type of schedule entry `i`, when it is a string.
pub open spec fn entry_type(schedule: Seq<char>, i: nat) -> Option<Seq<char>> {
    str_at(schedule, entry_ptr(i, "type"@))
}

/// Whether a type names a recurring entry.
pub open spec fn is_recurring(t: Seq<char>) -> bool {
    t == "hourly"@ || t == "daily"@ || t == "weekly"@
}

fn str_member_at(schedule: &str, i: usize, key: &str) -> (r: Option<String>)
    ensures
        match r {
            Some(s) => str_at(schedule@, entry_ptr(i as nat, key@)) == Some(s@),
            None => str_at(schedule@, entry_ptr(i as nat, key@)) is None,
        },
{
    let p = entry_pointer(i, key);
    match json_pointer(schedule, p.as_str()) {
        Some(JsonLeaf::Str(s)) => Some(s),
        _ => None,
    }
}

/// The `u64` value of a member, when it is a number that fits.
fn u64_member_at(schedule: &str, pointer: &str) -> (r: Option<u64>)
    ensures
        match json_leaf(schedule@, pointer@) {
            Some(JsonLeafView::Number(u, _)) => r == u,
            _ => r is None,
        },
{
    match json_pointer(schedule, pointer) {
        Some(JsonLeaf::Number(u, _)) => u,
        _ => None,
    }
}

/// The `time` member of entry `i`, `00:00` when it has no text one.
pub open spec fn entry_time(schedule: Seq<char>, i: nat) -> Seq<char> {
    match str_at(schedule, entry_ptr(i, "time"@)) {
        Some(t) => t,
        None => "00:00"@,
    }
}

/// `time` member of entry `i`, defaulting to `00:00`.
fn time_of(schedule: &str, i: usize) -> (r: String)
    ensures
        r@ == entry_time(schedule@, i as nat),
{
    match str_member_at(schedule, i, "time") {
        Some(t) => t,
        None => "00:00".to_string(),
    }
}

/// Among the first `n` items of the array at `base`, those that are numbers
/// fitting in `u64`, in order, cut to 32 bits.
pub open spec fn number_items(schedule: Seq<char>, base: Seq<char>, n: nat) -> Seq<u32>
    decreases n,
{
    if n == 0 {
        Seq::empty()
    } else {
        let r = number_items(schedule, base, (n - 1) as nat);
        match json_leaf(schedule, base + seq!['/'] + decimal((n - 1) as nat)) {
            Some(JsonLeafView::Number(Some(v), _)) => r.push((v % 4294967296) as u32),
            _ => r,
        }
    }
}

/// The weekdays listed by entry `i`: the numbers of its `weekdays` array
/// (none when it has no array), cut to 32 bits.
pub open spec fn entry_weekdays(schedule: Seq<char>, i: nat) -> Seq<u32> {
    let base = entry_ptr(i, "weekdays"@);
    match json_leaf(schedule, base) {
        Some(JsonLeafView::Array(n)) => number_items(schedule, base, n),
        _ => Seq::empty(),
    }
}

/// The weekdays listed by entry `i` (numbers only, cut to 32 bits).
fn weekdays_of(schedule: &str, i: usize) -> (r: Vec<u32>)
    ensures
        r@ == entry_weekdays(schedule@, i as nat),
{
    let mut out: Vec<u32> = Vec::new();
    let base = entry_pointer(i, "weekdays");
    let n = match json_pointer(schedule, base.as_str()) {
        Some(JsonLeaf::Array(n)) => n,
        _ => return out,
    };
    let mut j: usize = 0;
    while j < n
        invariant
            j <= n,
            base@ == entry_ptr(i as nat, "weekdays"@),
            out@ == number_items(schedule@, base@, j as nat),
        decreases n - j,
    {
        let mut p = str_chars(base.as_str());
        p.push('/');
        let d = u64_decimal(j as u64);
        push_all(&mut p, d.as_slice());
        let ps = string_from_chars(p.as_slice());
        assert(ps@ =~= base@ + seq!['/'] + decimal(j as nat));
        if let Some(v) = u64_member_at(schedule, ps.as_str()) {
            out.push((v % 4294967296) as u32);
        }
        j = j + 1;
    }
    out
}

/// The `minute` of entry `i`: its value when it is a number that fits `u64`,
/// cut to 32 bits; 0 otherwise.
pub open spec fn entry_minute(schedule: Seq<char>, i: nat) -> u32 {
    match json_leaf(schedule, entry_ptr(i, "minute"@)) {
        Some(JsonLeafView::Number(Some(v), _)) => (v % 4294967296) as u32,
        _ => 0,
    }
}

/// What entry `i` can give as its next run after `after`, by its kind: an
/// hourly, daily or weekly run for the minute, time and weekdays it lists;
/// nothing for any other entry.
pub open spec fn entry_outcome(schedule: Seq<char>, i: nat, after: int, x: Option<i64>) -> bool {
    match entry_type(schedule, i) {
        Some(ty) => if ty == "hourly"@ {
            hourly_outcome(after, entry_minute(schedule, i), x)
        } else if ty == "daily"@ {
            daily_outcome(after, entry_time(schedule, i), x)
        } else if ty == "weekly"@ {
            weekly_outcome(after, entry_weekdays(schedule, i), entry_time(schedule, i), x)
        } else {
            x is None
        },
        None => x is None,
    }
}

/// The earliest of some optional times; none when none is given.
pub open spec fn earliest_of(s: Seq<Option<i64>>) -> Option<i64>
    decreases s.len(),
{
    if s.len() == 0 {
        None
    } else {
        earliest(earliest_of(s.drop_last()), s.last())
    }
}

/// The earliest of some optional times.
pub fn earliest_run(times: &Vec<Option<i64>>) -> (r: Option<i64>)
    ensures
        r == earliest_of(times@),
{
    let mut best: Option<i64> = None;
    let mut i: usize = 0;
    while i < times.len()
        invariant
            i <= times@.len(),
            best == earliest_of(times@.take(i as int)),
        decreases times@.len() - i,
    {
        assert(times@.take(i + 1).drop_last() =~= times@.take(i as int));
        best = earlier(best, times[i]);
        i = i + 1;
    }
    assert(times@.take(times@.len() as int) =~= times@);
    best
}

/// The earliest of some optional times is one of them, and no later than any
/// of them; there is one exactly when some time is given.
pub proof fn lemma_earliest_of(s: Seq<Option<i64>>)
    ensures
        earliest_of(s) is None <==> (forall|i: int| 0 <= i < s.len() ==> (#[trigger] s[i]) is None),
        earliest_of(s) matches Some(t) ==> exists|i: int| 0 <= i < s.len() && s[i] == Some(t),
        earliest_of(s) matches Some(t) ==> forall|i: int| 0 <= i < s.len() && (#[trigger] s[i]) is Some ==> t <= s[i]->0,
    decreases s.len(),
{
    if s.len() > 0 {
        let p = s.drop_last();
        lemma_earliest_of(p);
        assert forall|i: int| 0 <= i < p.len() implies p[i] == s[i] by {}
        if earliest_of(p) is None && s.last() is None {
            assert forall|i: int| 0 <= i < s.len() implies (#[trigger] s[i]) is None by {
                if i < p.len() {
                    assert(p[i] == s[i]);
                }
            }
        }
        if let Some(t) = earliest_of(s) {
            if earliest_of(p) == Some(t) {
                let i = choose|i: int| 0 <= i < p.len() && p[i] == Some(t);
                assert(s[i] == Some(t));
            } else {
                assert(s[s.len() - 1] == Some(t));
            }
            assert forall|i: int| 0 <= i < s.len() && (#[trigger] s[i]) is Some implies t <= s[i]->0 by {
                if i < p.len() {
                    assert(p[i] == s[i]);
                }
            }
        }
    }
}

/// What `next_recurring` gives: nothing when the schedule is not a JSON
/// array or some entry has no text `type`; otherwise the earliest of what
/// each entry can give (see [`entry_outcome`]).
pub open spec fn recurring_outcome(schedule: Seq<char>, after: int, r: Option<i64>) -> bool {
    match schedule_len(schedule) {
        None => r is None,
        Some(n) => if exists|i: nat| i < n && (#[trigger] entry_type(schedule, i)) is None {
            r is None
        } else {
            exists|runs: Seq<Option<i64>>| #[trigger] earliest_of(runs) == r && runs.len() == n
                && forall|i: nat| i < n ==> #[trigger] entry_outcome(schedule, i, after, runs[i as int])
        },
    }
}

/// Next run of a task's recurring entries (hourly, daily, weekly; `once`
/// entries are ignored): the earliest over the entries. There is none when
/// the schedule is not a JSON array, when an entry has no text `type`, or
/// when no entry is recurring; when there is one, none of these holds.
pub fn next_recurring(schedule: &str, after: i64) -> (r: Option<i64>)
    ensures
        recurring_outcome(schedule@, after as int, r),
        schedule_len(schedule@) matches Some(n) && (forall|i: nat| i < n ==> !(#[trigger] entry_type(schedule@, i) matches Some(t) && is_recurring(t))) ==> r is None,
        r is Some ==> (schedule_len(schedule@) matches Some(n)
            && (forall|i: nat| i < n ==> (#[trigger] entry_type(schedule@, i)) is Some)
            && exists|i: nat| i < n && (#[trigger] entry_type(schedule@, i) matches Some(t) && is_recurring(t))),
        r matches Some(t) ==> -ts_bound() < t < ts_bound() + 7 * 86400,
{
    let n = match schedule_length(schedule) {
        Some(n) => n,
        None => return None,
    };
    let mut runs: Vec<Option<i64>> = Vec::new();
    let mut i: usize = 0;
    let hourly = str_chars("hourly");
    let daily = str_chars("daily");
    let weekly = str_chars("weekly");
    while i < n
        invariant
            i <= n,
            runs@.len() == i,
            schedule_len(schedule@) == Some(n as nat),
            hourly@ == "hourly"@,
            daily@ == "daily"@,
            weekly@ == "weekly"@,
            forall|j: nat| j < i ==> (#[trigger] entry_type(schedule@, j)) is Some,
            forall|j: nat| j < i ==> #[trigger] entry_outcome(schedule@, j, after as int, runs@[j as int]),
            forall|j: int| 0 <= j < i ==> ((#[trigger] runs@[j]) matches Some(t) ==> -ts_bound() < t < ts_bound() + 7 * 86400),
            forall|j: int| 0 <= j < i ==> ((#[trigger] runs@[j]) is Some ==> (entry_type(schedule@, j as nat) matches Some(t) && is_recurring(t))),
        decreases n - i,
    {
        let ty = match str_member_at(schedule, i, "type") {
            Some(t) => str_chars(t.as_str()),
            None => {
                proof {
                    assert(entry_type(schedule@, i as nat) is None);
                }
                return None;
            },
        };
        let candidate = if chars_eq(ty.as_slice(), hourly.as_slice()) {
            let p = entry_pointer(i, "minute");
            let minute = match u64_member_at(schedule, p.as_str()) {
                Some(v) => (v % 4294967296) as u32,
                None => 0,
            };
            assert(minute == entry_minute(schedule@, i as nat));
            hourly_next(after, minute)
        } else if chars_eq(ty.as_slice(), daily.as_slice()) {
            let time = time_of(schedule, i);
            daily_next(after, time.as_str())
        } else if chars_eq(ty.as_slice(), weekly.as_slice()) {
            let days = weekdays_of(schedule, i);
            let time = time_of(schedule, i);
            weekly_next(after, &days, time.as_str())
        } else {
            None
        };
        assert(entry_type(schedule@, i as nat) == Some(ty@));
        assert(entry_outcome(schedule@, i as nat, after as int, candidate));
        let ghost old_runs = runs@;
        runs.push(candidate);
        proof {
            assert forall|j: nat| j < i + 1 implies #[trigger] entry_outcome(schedule@, j, after as int, runs@[j as int]) by {
                if j < i {
                    assert(runs@[j as int] == old_runs[j as int]);
                }
            }
            assert forall|j: int| 0 <= j < i + 1 && (#[trigger] runs@[j]) is Some implies (entry_type(schedule@, j as nat) matches Some(t) && is_recurring(t)) by {
                if j < i {
                    assert(runs@[j] == old_runs[j]);
                }
            }
            assert forall|j: int| 0 <= j < i + 1 && (#[trigger] runs@[j]) is Some implies -ts_bound() < runs@[j]->0 < ts_bound() + 7 * 86400 by {
                if j < i {
                    assert(runs@[j] == old_runs[j]);
                }
            }
        }
        i = i + 1;
    }
    let r = earliest_run(&runs);
    proof {
        lemma_earliest_of(runs@);
        assert(!(exists|j: nat| j < n && (#[trigger] entry_type(schedule@, j)) is None));
        assert(earliest_of(runs@) == r);
        if let Some(t) = r {
            let j = choose|j: int| 0 <= j < runs@.len() && runs@[j] == Some(t);
            assert(runs@[j] is Some);
            assert(entry_type(schedule@, j as nat) matches Some(t) && is_recurring(t));
        }
        if forall|j: nat| j < n ==> !(#[trigger] entry_type(schedule@, j) matches Some(t) && is_recurring(t)) {
            assert forall|j: int| 0 <= j < runs@.len() implies (#[trigger] runs@[j]) is None by {
                assert(!(entry_type(schedule@, j as nat) matches Some(t) && is_recurring(t)));
            }
        }
    }
    r
}

/// The Unix timestamp of an RFC 3339 date-time, as `chrono` parses it.
pub uninterp spec fn rfc3339_ts(text: Seq<char>) -> Option<i64>;

/// `DateTime::parse_from_rfc3339(text)` and its `timestamp()`; the contract
/// claims only that the result is a function of the text, named `rfc3339_ts`.
#[verifier::external_body]
fn rfc3339_timestamp(text: &str) -> (r: Option<i64>)
    ensures
        r == rfc3339_ts(text@),
{
    chrono::DateTime::parse_from_rfc3339(text).ok().map(|d| d.timestamp())
}

/// A date and time without a time zone: year, month, day, hour, minute,
/// second, nanosecond.
pub struct NaiveParts {
    pub year: i32,
    pub month: u32,
    pub day: u32,
    pub hour: u32,
    pub minute: u32,
    pub second: u32,
    pub nano: u32,
}

/// What `NaiveDateTime::parse_from_str(text, format)` reads, as
/// (year, month, day, hour, minute, second, nanosecond).
pub uninterp spec fn naive_datetime(text: Seq<char>, format: Seq<char>) -> Option<(i32, u32, u32, u32, u32, u32, u32)>;

/// `NaiveDateTime::parse_from_str(text, format)`, broken into its fields; the
/// contract claims only that the result is a function of the two strings,
/// named `naive_datetime`.
#[verifier::external_body]
fn parse_naive(text: &str, format: &str) -> (r: Option<NaiveParts>)
    ensures
        match r {
            Some(p) => naive_datetime(text@, format@) == Some((p.year, p.month, p.day, p.hour, p.minute, p.second, p.nano)),
            None => naive_datetime(text@, format@) is None,
        },
{
    let n = chrono::NaiveDateTime::parse_from_str(text, format).ok()?;
    Some(NaiveParts { year: n.year(), month: n.month(), day: n.day(), hour: n.hour(), minute: n.minute(), second: n.second(), nano: n.nanosecond() })
}

/// A time text with its `T` separator made a space, one trailing `Z`
/// dropped, and surrounding whitespace trimmed.
pub open spec fn local_time_text(raw: Seq<char>) -> Seq<char> {
    let n = raw.map_values(|c: char| if c == 'T' { ' ' } else { c });
    let s = if n.len() > 0 && n.last() == 'Z' { n.drop_last() } else { n };
    trim(s)
}

/// The message for an `at` that is neither a number nor a text.
pub open spec fn at_kind_message() -> Seq<char> {
    "once 条目的 at 应为 Unix 秒或时间字符串"@
}

/// The message for a time text that cannot be read.
pub open spec fn at_text_message(text: Seq<char>) -> Seq<char> {
    "无法解析 once 时间: "@ + text + ", 期望 Unix 秒或 YYYY-MM-DD HH:MM:SS"@
}

fn local_text(raw: &[char]) -> (r: Vec<char>)
    ensures
        r@ == local_time_text(raw@),
{
    let mut n: Vec<char> = Vec::new();
    let mut i: usize = 0;
    while i < raw.len()
        invariant
            i <= raw@.len(),
            n@ == raw@.take(i as int).map_values(|c: char| if c == 'T' { ' ' } else { c }),
        decreases raw@.len() - i,
    {
        let c = if raw[i] == 'T' { ' ' } else { raw[i] };
        n.push(c);
        i = i + 1;
        assert(n@ =~= raw@.take(i as int).map_values(|c: char| if c == 'T' { ' ' } else { c }));
    }
    assert(raw@.take(raw@.len() as int) =~= raw@);
    if n.len() > 0 && n[n.len() - 1] == 'Z' {
        n.pop();
    }
    trim_chars(n.as_slice())
}

/// Reads the `at` of a `once` entry: Unix seconds (a number that fits `i64`),
/// or a time text: RFC 3339 with an offset, else `YYYY-MM-DD HH:MM:SS` or
/// `YYYY-MM-DD HH:MM` in local time (`T` may stand for the space, a trailing
/// `Z` is ignored).
pub fn parse_once_at(at: &JsonLeaf) -> (r: Result<i64, String>)
    ensures
        at@ matches JsonLeafView::Number(_, Some(i)) ==> r == Ok::<i64, String>(i),
        !(at@ matches JsonLeafView::Number(_, Some(_))) && !(at@ is Str) ==> (r matches Err(e) && e@ == at_kind_message()),
        at@ matches JsonLeafView::Str(t) ==> {
            let raw = trim(t);
            let local = local_time_text(raw);
            &&& rfc3339_ts(raw) matches Some(v) ==> r == Ok::<i64, String>(v)
            &&& (rfc3339_ts(raw) is None && naive_datetime(local, "%Y-%m-%d %H:%M:%S"@) is None
                && naive_datetime(local, "%Y-%m-%d %H:%M"@) is None) ==> (r matches Err(e) && e@ == at_text_message(t))
            &&& r matches Err(e) ==> e@ == at_text_message(t)
        },
{
    match at {
        JsonLeaf::Number(_, Some(i)) => return Ok(*i),
        JsonLeaf::Str(text) => {
            let chars = str_chars(text.as_str());
            let raw_v = trim_chars(chars.as_slice());
            let raw = string_from_chars(raw_v.as_slice());
            if let Some(v) = rfc3339_timestamp(raw.as_str()) {
                return Ok(v);
            }
            let local = local_text(raw_v.as_slice());
            let local_s = string_from_chars(local.as_slice());
            let f1 = "%Y-%m-%d %H:%M:%S";
            let f2 = "%Y-%m-%d %H:%M";
            if let Some(p) = parse_naive(local_s.as_str(), f1) {
                if let Some(ts) = local_timestamp(p.year, p.month, p.day, p.hour, p.minute, p.second, p.nano) {
                    return Ok(ts);
                }
            }
            if let Some(p) = parse_naive(local_s.as_str(), f2) {
                if let Some(ts) = local_timestamp(p.year, p.month, p.day, p.hour, p.minute, p.second, p.nano) {
                    return Ok(ts);
                }
            }
            let mut m = str_chars("无法解析 once 时间: ");
            push_all(&mut m, chars.as_slice());
            let tail = str_chars(", 期望 Unix 秒或 YYYY-MM-DD HH:MM:SS");
            push_all(&mut m, tail.as_slice());
            Err(string_from_chars(m.as_slice()))
        },
        _ => Err("once 条目的 at 应为 Unix 秒或时间字符串".to_string()),
    }
}

/// Whether entry `i` is a `once` entry.
pub open spec fn is_once(schedule: Seq<char>, i: nat) -> bool {
    entry_type(schedule, i) == Some("once"@)
}

/// The first `once` entry of a schedule gives `v` as Unix seconds.
pub open spec fn unix_once(schedule: Seq<char>, v: i64) -> bool {
    exists|i: nat| #![trigger is_once(schedule, i)]
        (schedule_len(schedule) matches Some(n) && i < n)
        && is_once(schedule, i)
        && (forall|j: nat| j < i ==> !is_once(schedule, j))
        && (json_leaf(schedule, entry_ptr(i, "at"@)) matches Some(JsonLeafView::Number(_, Some(x))) && x == v)
}

/// The `at` of entry `i` reads as `v` whatever the machine's time zone:
/// Unix seconds that fit `i64`, or RFC 3339 text (surrounding whitespace
/// trimmed).
pub open spec fn at_reads(schedule: Seq<char>, i: nat, v: i64) -> bool {
    match json_leaf(schedule, entry_ptr(i, "at"@)) {
        Some(JsonLeafView::Number(_, Some(x))) => x == v,
        Some(JsonLeafView::Str(t)) => rfc3339_ts(trim(t)) == Some(v),
        _ => false,
    }
}

/// The `at` of entry `i` cannot be read whatever the machine's time zone: it
/// is missing, neither text nor a number that fits `i64`, or text that is
/// neither RFC 3339 nor a local time in either accepted form.
pub open spec fn at_fails(schedule: Seq<char>, i: nat) -> bool {
    match json_leaf(schedule, entry_ptr(i, "at"@)) {
        None => true,
        Some(JsonLeafView::Number(_, Some(_))) => false,
        Some(JsonLeafView::Str(t)) => rfc3339_ts(trim(t)) is None
            && naive_datetime(local_time_text(trim(t)), "%Y-%m-%d %H:%M:%S"@) is None
            && naive_datetime(local_time_text(trim(t)), "%Y-%m-%d %H:%M"@) is None,
        Some(_) => true,
    }
}

/// What `once_at` gives: nothing when the schedule is not a JSON array or
/// has no `once` entry; a time only from some `once` entry; and `v` when a
/// `once` entry's `at` reads as `v` (Unix seconds or RFC 3339 text) and every
/// `once` entry before it cannot be read at all. (Local time text depends on
/// the machine's time zone.)
pub open spec fn once_outcome(schedule: Seq<char>, r: Option<i64>) -> bool {
    &&& schedule_len(schedule) is None ==> r is None
    &&& (schedule_len(schedule) matches Some(n) && (forall|i: nat| i < n ==> !is_once(schedule, i))) ==> r is None
    &&& r is Some ==> (schedule_len(schedule) matches Some(n) && exists|i: nat| i < n && is_once(schedule, i))
    &&& forall|i: nat, v: i64| #![trigger at_reads(schedule, i, v)]
        (schedule_len(schedule) matches Some(n) && i < n && is_once(schedule, i) && at_reads(schedule, i, v)
        && (forall|j: nat| j < i && is_once(schedule, j) ==> at_fails(schedule, j)))
        ==> r == Some(v)
    &&& forall|v: i64| #[trigger] unix_once(schedule, v) ==> r == Some(v)
}

/// Run time of a one-off task: that of the first `once` entry whose `at` can
/// be read (see [`once_outcome`]).
pub fn once_at(schedule: &str) -> (r: Option<i64>)
    ensures
        once_outcome(schedule@, r),
{
    let n = match schedule_length(schedule) {
        Some(n) => n,
        None => return None,
    };
    let once = str_chars("once");
    let mut i: usize = 0;
    while i < n
        invariant
            i <= n,
            once@ == "once"@,
            schedule_len(schedule@) == Some(n as nat),
            forall|j: nat, w: i64| #![trigger at_reads(schedule@, j, w)]
                j < i && is_once(schedule@, j) ==> !at_reads(schedule@, j, w),
        decreases n - i,
    {
        if let Some(t) = str_member_at(schedule, i, "type") {
            let tv = str_chars(t.as_str());
            if chars_eq(tv.as_slice(), once.as_slice()) {
                assert(is_once(schedule@, i as nat));
                let p = entry_pointer(i, "at");
                match json_pointer(schedule, p.as_str()) {
                    Some(leaf) => {
                        match parse_once_at(&leaf) {
                            Ok(v) => {
                                proof {
                                    assert(!at_fails(schedule@, i as nat));
                                    assert forall|k: nat, w: i64| #![trigger at_reads(schedule@, k, w)]
                                        (schedule_len(schedule@) matches Some(m) && k < m && is_once(schedule@, k)
                                        && at_reads(schedule@, k, w)
                                        && (forall|j: nat| j < k && is_once(schedule@, j) ==> at_fails(schedule@, j)))
                                        implies Some(v) == Some(w) by {
                                        if k > i {
                                            assert(is_once(schedule@, i as nat));
                                        }
                                    }
                                    assert forall|w: i64| #[trigger] unix_once(schedule@, w) implies Some(v) == Some(w) by {
                                        let k = choose|k: nat| #![trigger is_once(schedule@, k)]
                                            (schedule_len(schedule@) matches Some(m) && k < m)
                                            && is_once(schedule@, k)
                                            && (forall|j: nat| j < k ==> !is_once(schedule@, j))
                                            && (json_leaf(schedule@, entry_ptr(k, "at"@)) matches Some(JsonLeafView::Number(_, Some(x))) && x == w);
                                        assert(at_reads(schedule@, k, w));
                                        if k > i {
                                            assert(!is_once(schedule@, i as nat));
                                        }
                                    }
                                }
                                return Some(v);
                            },
                            Err(_) => {},
                        }
                    },
                    None => {},
                }
            }
        }
        i = i + 1;
    }
    proof {
        assert forall|w: i64| #[trigger] unix_once(schedule@, w) implies None::<i64> == Some(w) by {
            let k = choose|k: nat| #![trigger is_once(schedule@, k)]
                (schedule_len(schedule@) matches Some(m) && k < m)
                && is_once(schedule@, k)
                && (forall|j: nat| j < k ==> !is_once(schedule@, j))
                && (json_leaf(schedule@, entry_ptr(k, "at"@)) matches Some(JsonLeafView::Number(_, Some(x))) && x == w);
            assert(at_reads(schedule@, k, w));
        }
    }
    None
}

/// For display: the earliest of the one-off time (which may have passed,
/// meaning "now") and the next recurring run, for what [`once_at`] and
/// [`next_recurring`] give.
pub fn next_overall(schedule: &str, after: i64) -> (r: Option<i64>)
    ensures
        exists|once: Option<i64>, next: Option<i64>|
            #![trigger once_outcome(schedule@, once), recurring_outcome(schedule@, after as int, next)]
            once_outcome(schedule@, once) && recurring_outcome(schedule@, after as int, next)
            && r == earliest(once, next),
        schedule_len(schedule@) is None ==> r is None,
        (schedule_len(schedule@) matches Some(n)
            && forall|i: nat| i < n ==> !(#[trigger] entry_type(schedule@, i) matches Some(t) && is_recurring(t)))
            ==> forall|v: i64| #[trigger] unix_once(schedule@, v) ==> r == Some(v),
{
    let once = once_at(schedule);
    let recurring = next_recurring(schedule, after);
    earlier(once, recurring)
}

} // verus!
