//! Home page statistics: the activity of the last days, day by day.
use vstd::prelude::*;

use crate::text::{chars_eq, decimal, digit_char, push_all, str_chars, string_from_chars, u64_decimal};

verus! {

/// Messages and tokens of one (local) day.
pub struct DailyActivity {
    /// The day, as `YYYY-MM-DD`.
    pub day: String,
    pub messages: i64,
    pub tokens: i64,
}

/// The counts recorded for `day`: those of the last row for that day, or
/// none.
pub open spec fn counts_for(rows: Seq<DailyActivity>, day: Seq<char>) -> (i64, i64)
    decreases rows.len(),
{
    if rows.len() == 0 {
        (0, 0)
    } else if rows.last().day@ == day {
        (rows.last().messages, rows.last().tokens)
    } else {
        counts_for(rows.drop_last(), day)
    }
}

/// The counts of one day from the grouped rows (zero when the day has none).
fn counts_of(rows: &Vec<DailyActivity>, day: &str) -> (r: (i64, i64))
    ensures
        r == counts_for(rows@, day@),
{
    let d = str_chars(day);
    let mut i = rows.len();
    assert(rows@.take(i as int) =~= rows@);
    while i > 0
        invariant
            i <= rows@.len(),
            d@ == day@,
            counts_for(rows@, day@) == counts_for(rows@.take(i as int), day@),
        decreases i,
    {
        let r = &rows[i - 1];
        assert(rows@.take(i as int).last() == rows@[i - 1]);
        assert(rows@.take(i as int).drop_last() =~= rows@.take(i - 1));
        if chars_eq(str_chars(r.day.as_str()).as_slice(), d.as_slice()) {
            return (r.messages, r.tokens);
        }
        i = i - 1;
    }
    (0, 0)
}

/// One entry per day asked for (in the order asked), with the counts of the
/// grouped rows for that day, or zeros.
pub fn fill_daily_activity(days: Vec<String>, rows: &Vec<DailyActivity>) -> (r: Vec<DailyActivity>)
    ensures
        r@.len() == days@.len(),
        forall|i: int| 0 <= i < days@.len() ==> #[trigger] r@[i].day == days@[i]
            && (r@[i].messages, r@[i].tokens) == counts_for(rows@, days@[i]@),
{
    let ghost all = days@;
    let mut rest = days;
    let mut out: Vec<DailyActivity> = Vec::new();
    let n = rest.len();
    let mut k: usize = 0;
    while rest.len() > 0
        invariant
            all.len() == n,
            k + rest@.len() == n,
            rest@ == all.skip(k as int),
            out@.len() == k,
            forall|i: int| 0 <= i < k ==> #[trigger] out@[i].day == all[i]
                && (out@[i].messages, out@[i].tokens) == counts_for(rows@, all[i]@),
        decreases rest@.len(),
    {
        let day = rest.remove(0);
        assert(day == all[k as int]);
        let (messages, tokens) = counts_of(rows, day.as_str());
        out.push(DailyActivity { day, messages, tokens });
        k = k + 1;
        assert(rest@ =~= all.skip(k as int));
    }
    out
}


/// Whether a year of the proleptic Gregorian calendar is a leap year.
pub open spec fn leap_year(y: int) -> bool {
    (y % 4 == 0 && y % 100 != 0) || y % 400 == 0
}

/// The number of days of month `m` (1..12) of year `y`.
pub open spec fn month_days(y: int, m: int) -> int {
    if m == 2 {
        if leap_year(y) { 29 } else { 28 }
    } else if m == 4 || m == 6 || m == 9 || m == 11 {
        30
    } else {
        31
    }
}

/// Whether (year, month, day) is a date of the calendar.
pub open spec fn valid_date(y: int, m: int, d: int) -> bool {
    1 <= m <= 12 && 1 <= d <= month_days(y, m)
}

/// The day before a date.
pub open spec fn day_before(date: (int, int, int)) -> (int, int, int) {
    let (y, m, d) = date;
    if d > 1 {
        (y, m, d - 1)
    } else if m > 1 {
        (y, m - 1, month_days(y, m - 1))
    } else {
        (y - 1, 12, 31)
    }
}

/// The date `k` days before a date.
pub open spec fn days_before(date: (int, int, int), k: nat) -> (int, int, int)
    decreases k,
{
    if k == 0 {
        date
    } else {
        day_before(days_before(date, (k - 1) as nat))
    }
}

/// A number below 10 000 written with four digits.
pub open spec fn four_digits(n: nat) -> Seq<char> {
    seq![digit_char(n / 1000), digit_char((n / 100) % 10), digit_char((n / 10) % 10), digit_char(n % 10)]
}

/// A number below 100 written with two digits.
pub open spec fn two_digits(n: nat) -> Seq<char> {
    seq![digit_char(n / 10), digit_char(n % 10)]
}

/// A year as `%Y` writes it: four digits for 0..9999; otherwise a sign,
/// then the digits of its size, at least four.
pub open spec fn year_text(y: int) -> Seq<char> {
    if 0 <= y <= 9999 {
        four_digits(y as nat)
    } else if y > 9999 {
        seq!['+'] + decimal(y as nat)
    } else if -y <= 9999 {
        seq!['-'] + four_digits((-y) as nat)
    } else {
        seq!['-'] + decimal((-y) as nat)
    }
}

/// A date as `YYYY-MM-DD` (`%Y-%m-%d`).
pub open spec fn date_text(date: (int, int, int)) -> Seq<char> {
    year_text(date.0) + seq!['-'] + two_digits(date.1 as nat) + seq!['-'] + two_digits(date.2 as nat)
}

fn digit(d: u32) -> (c: char)
    requires
        d < 10,
    ensures
        c == digit_char(d as nat),
{
    ((d as u8) + 48) as char
}

fn month_length(y: i32, m: u32) -> (r: u32)
    requires
        1 <= m <= 12,
    ensures
        r == month_days(y as int, m as int),
{
    if m == 2 {
        if (y % 4 == 0 && y % 100 != 0) || y % 400 == 0 { 29 } else { 28 }
    } else if m == 4 || m == 6 || m == 9 || m == 11 {
        30
    } else {
        31
    }
}

fn push_four(v: &mut Vec<char>, n: u32)
    requires
        n < 10000,
    ensures
        final(v)@ == old(v)@ + four_digits(n as nat),
{
    v.push(digit(n / 1000));
    v.push(digit((n / 100) % 10));
    v.push(digit((n / 10) % 10));
    v.push(digit(n % 10));
    assert(final(v)@ =~= old(v)@ + four_digits(n as nat));
}

fn push_two(v: &mut Vec<char>, n: u32)
    requires
        n < 100,
    ensures
        final(v)@ == old(v)@ + two_digits(n as nat),
{
    v.push(digit(n / 10));
    v.push(digit(n % 10));
    assert(final(v)@ =~= old(v)@ + two_digits(n as nat));
}

/// Writes a date as `YYYY-MM-DD`.
pub fn format_date(y: i32, m: u32, d: u32) -> (r: String)
    requires
        y > i32::MIN,
        1 <= m <= 12,
        1 <= d <= 31,
    ensures
        r@ == date_text((y as int, m as int, d as int)),
{
    let mut v: Vec<char> = Vec::new();
    if 0 <= y && y <= 9999 {
        push_four(&mut v, y as u32);
    } else if y > 9999 {
        v.push('+');
        push_all(&mut v, u64_decimal(y as u64).as_slice());
    } else {
        v.push('-');
        let a: i32 = -y;
        if a <= 9999 {
            push_four(&mut v, a as u32);
        } else {
            push_all(&mut v, u64_decimal(a as u64).as_slice());
        }
    }
    assert(v@ =~= year_text(y as int));
    v.push('-');
    push_two(&mut v, m);
    v.push('-');
    push_two(&mut v, d);
    assert(v@ =~= date_text((y as int, m as int, d as int)));
    string_from_chars(v.as_slice())
}

/// The seven days ending with `today` (a local date: year, month, day),
/// oldest first, as `YYYY-MM-DD`: the days the home page shows.
pub fn recent_days(today: (i32, u32, u32)) -> (r: Vec<String>)
    requires
        valid_date(today.0 as int, today.1 as int, today.2 as int),
        today.0 > i32::MIN + 1,
    ensures
        r@.len() == 7,
        forall|k: int| 0 <= k < 7 ==> #[trigger] r@[k]@
            == date_text(days_before((today.0 as int, today.1 as int, today.2 as int), (6 - k) as nat)),
{
    let ghost start = (today.0 as int, today.1 as int, today.2 as int);
    let (mut y, mut m, mut d) = today;
    let mut back: Vec<(i32, u32, u32)> = Vec::new();
    let mut k: usize = 0;
    while k < 7
        invariant
            k <= 7,
            back@.len() == k,
            (y as int, m as int, d as int) == days_before(start, k as nat),
            valid_date(y as int, m as int, d as int),
            y >= today.0 - 1,
            start == (today.0 as int, today.1 as int, today.2 as int),
            valid_date(today.0 as int, today.1 as int, today.2 as int),
            today.0 > i32::MIN + 1,
            forall|j: int| 0 <= j < k ==> {
                let e = #[trigger] back@[j];
                (e.0 as int, e.1 as int, e.2 as int) == days_before(start, j as nat)
                    && valid_date(e.0 as int, e.1 as int, e.2 as int) && e.0 > i32::MIN
            },
        decreases 7 - k,
    {
        back.push((y, m, d));
        if d > 1 {
            d = d - 1;
        } else if m > 1 {
            m = m - 1;
            d = month_length(y, m);
        } else {
            proof {
                assert(y == today.0) by {
                    lemma_year_back(start, k as nat);
                }
            }
            y = y - 1;
            m = 12;
            d = 31;
        }
        proof {
            lemma_year_back(start, (k + 1) as nat);
        }
        k = k + 1;
    }
    let mut out: Vec<String> = Vec::new();
    let mut j: usize = 7;
    while j > 0
        invariant
            j <= 7,
            back@.len() == 7,
            out@.len() == 7 - j,
            forall|i: int| 0 <= i < 7 ==> {
                let e = #[trigger] back@[i];
                (e.0 as int, e.1 as int, e.2 as int) == days_before(start, i as nat)
                    && valid_date(e.0 as int, e.1 as int, e.2 as int) && e.0 > i32::MIN
            },
            forall|i: int| 0 <= i < out@.len() ==> #[trigger] out@[i]@ == date_text(days_before(start, (6 - i) as nat)),
        decreases j,
    {
        j = j - 1;
        let (yy, mm, dd) = back[j];
        let t = format_date(yy, mm, dd);
        out.push(t);
    }
    out
}

/// Going back fewer than 7 days from a valid date stays a valid date, and
/// crosses into the year before at most once.
proof fn lemma_year_back(start: (int, int, int), k: nat)
    requires
        valid_date(start.0, start.1, start.2),
        k <= 7,
    ensures
        valid_date(days_before(start, k).0, days_before(start, k).1, days_before(start, k).2),
        days_before(start, k).0 == start.0 || (days_before(start, k).0 == start.0 - 1 && days_before(start, k).1 == 12 && days_before(start, k).2 >= 31 - k),
    decreases k,
{
    if k > 0 {
        lemma_year_back(start, (k - 1) as nat);
    }
}

} // verus!
