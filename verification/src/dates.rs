//! Calendar dates as day numbers.
//!
//! A date is carried as its day number counted from the first day of the
//! common era (day 1 is 0001-01-01, a Monday), the numbering `chrono` exposes
//! through `num_days_from_ce`.  On day numbers the weekday is plain modular
//! arithmetic, and enumerating candidate dates for a poll is counting; only
//! rendering a day number as text, and reading today's date from the clock,
//! are delegated to `chrono`.

use chrono::Datelike;
use vstd::prelude::*;
use vstd::arithmetic::div_mod::{lemma_fundamental_div_mod, lemma_small_mod};

verus! {

/// Largest day number the library works with; far beyond any realistic
/// poll date, yet small enough that all date arithmetic stays in `u64`
/// and inside `chrono`'s representable range.
pub const MAX_DAY: u64 = 3000000;

/// Weekday of a day number, as an index with Monday 0 through Sunday 6
/// (day 1, 0001-01-01, was a Monday).
pub open spec fn weekday_of(day: int) -> int {
    (day + 6) % 7
}

/// Whether `day` falls on one of the weekdays enabled in `allowed`
/// (a table of seven flags indexed by weekday).
pub open spec fn allowed_day(allowed: Seq<bool>, day: int) -> bool {
    allowed[weekday_of(day)]
}

/// How many weekdays are enabled in the table.
pub open spec fn count_true(allowed: Seq<bool>) -> int
    decreases allowed.len(),
{
    if allowed.len() == 0 {
        0
    } else {
        count_true(allowed.drop_last()) + if allowed.last() {
            1int
        } else {
            0int
        }
    }
}

proof fn lemma_count_true_pos(allowed: Seq<bool>)
    requires
        count_true(allowed) >= 1,
    ensures
        exists|w: int| 0 <= w < allowed.len() && allowed[w],
    decreases allowed.len(),
{
    if allowed.len() > 0 {
        if allowed.last() {
            assert(allowed[allowed.len() - 1]);
        } else {
            lemma_count_true_pos(allowed.drop_last());
            let w = choose|w: int| 0 <= w < allowed.drop_last().len() && allowed.drop_last()[w];
            assert(allowed[w]);
        }
    }
}

/// Exact weekday index of a day number.
pub fn weekday_index(day: u64) -> (w: u64)
    requires
        day <= MAX_DAY,
    ensures
        w == weekday_of(day as int),
        w < 7,
{
    (day + 6) % 7
}

/// In any run of seven consecutive days each weekday occurs once, so a
/// nonempty weekday table admits a day within the next seven.
proof fn lemma_weekday_within_week(day: int, allowed: Seq<bool>) -> (j: int)
    requires
        day >= 0,
        allowed.len() == 7,
        count_true(allowed) >= 1,
    ensures
        0 <= j < 7,
        allowed_day(allowed, day + j),
{
    lemma_count_true_pos(allowed);
    let w = choose|w: int| 0 <= w < 7 && allowed[w];
    let base = day + 6;
    let a = base % 7;
    lemma_fundamental_div_mod(base, 7);
    let q = base / 7;
    let j: int = if w >= a {
        w - a
    } else {
        w + 7 - a
    };
    assert(0 <= j < 7);
    if w >= a {
        assert(base + j == 7 * q + w);
        assert((7 * q + w) % 7 == w) by {
            vstd::arithmetic::div_mod::lemma_mod_multiples_vanish(q, w, 7);
            lemma_small_mod(w as nat, 7nat);
        }
    } else {
        assert(base + j == 7 * (q + 1) + w);
        assert((7 * (q + 1) + w) % 7 == w) by {
            vstd::arithmetic::div_mod::lemma_mod_multiples_vanish(q + 1, w, 7);
            lemma_small_mod(w as nat, 7nat);
        }
    }
    assert(weekday_of(day + j) == w);
    assert(allowed_day(allowed, day + j));
    j
}

/// First day at or after `day` whose weekday is enabled.
fn next_allowed(day: u64, allowed: &Vec<bool>) -> (r: u64)
    requires
        allowed.len() == 7,
        count_true(allowed@) >= 1,
        day + 7 <= MAX_DAY,
    ensures
        day <= r < day + 7,
        allowed_day(allowed@, r as int),
        forall|d: int| day <= d < r ==> !allowed_day(allowed@, d),
{
    let mut i: u64 = 0;
    while i < 7
        invariant
            allowed.len() == 7,
            count_true(allowed@) >= 1,
            day + 7 <= MAX_DAY,
            i <= 7,
            forall|d: int| day <= d < day + i ==> !allowed_day(allowed@, d),
        decreases 7 - i,
    {
        let w = weekday_index(day + i);
        if allowed[w as usize] {
            return day + i;
        }
        i = i + 1;
    }
    proof {
        let j = lemma_weekday_within_week(day as int, allowed@);
        assert(!allowed_day(allowed@, day + j));
    }
    assert(false);
    day
}

/// A sequence of candidate dates is exactly "the enabled days from
/// `start` on, none skipped": increasing, every entry an enabled day at
/// or after `start`, nothing enabled before the first entry or between
/// two neighbouring entries.
pub open spec fn candidate_dates_ok(r: Seq<u64>, start: int, allowed: Seq<bool>) -> bool {
    &&& forall|i: int|
        0 <= i < r.len() ==> start <= #[trigger] r[i] <= MAX_DAY && allowed_day(
            allowed,
            r[i] as int,
        )
    &&& forall|i: int, j: int| 0 <= i < j < r.len() ==> r[i] < r[j]
    &&& r.len() > 0 ==> forall|d: int| start <= d < r[0] ==> !allowed_day(allowed, d)
    &&& forall|i: int, d: int|
        #![trigger r[i], allowed_day(allowed, d)]
        0 <= i < r.len() - 1 && r[i] < d < r[i + 1] ==> !allowed_day(allowed, d)
}

/// The candidate dates of a poll: the first `n` days at or after the
/// start day whose weekday is enabled.
pub fn enumerate_days(start: u64, allowed: &Vec<bool>, n: u64) -> (r: Vec<u64>)
    requires
        allowed.len() == 7,
        count_true(allowed@) >= 1,
        1 <= start,
        start + 7 * n + 7 <= MAX_DAY,
    ensures
        r@.len() == n,
        candidate_dates_ok(r@, start as int, allowed@),
{
    let mut r: Vec<u64> = Vec::new();
    let mut day: u64 = start;
    let mut count: u64 = 0;
    while count < n
        invariant
            allowed.len() == 7,
            count_true(allowed@) >= 1,
            1 <= start,
            start + 7 * n + 7 <= MAX_DAY,
            count <= n,
            r@.len() == count,
            start <= day,
            day <= start + 7 * count,
            forall|i: int|
                0 <= i < count ==> start <= #[trigger] r@[i] <= MAX_DAY && allowed_day(
                    allowed@,
                    r@[i] as int,
                ),
            forall|i: int, j: int| 0 <= i < j < count ==> r@[i] < r@[j],
            count > 0 ==> forall|d: int| start <= d < r@[0] ==> !allowed_day(allowed@, d),
            forall|i: int, d: int|
                #![trigger r@[i], allowed_day(allowed@, d)]
                0 <= i < count - 1 && r@[i] < d < r@[i + 1] ==> !allowed_day(allowed@, d),
            count > 0 ==> r@[count - 1] < day,
            forall|d: int|
                (if count > 0 {
                    r@[count - 1] < d
                } else {
                    start <= d
                }) && d < day ==> !allowed_day(allowed@, d),
        decreases n - count,
    {
        let next = next_allowed(day, allowed);
        r.push(next);
        day = next + 1;
        count = count + 1;
    }
    r
}

/// Name for the text chrono renders for a day under `"%a %Y-%m-%d"`.
pub uninterp spec fn heading_of(day: int) -> Seq<char>;

/// Name for the text chrono renders for a day under `"%a %b %d"`.
pub uninterp spec fn menu_label_of(day: int) -> Seq<char>;

/// Relies on chrono's `NaiveDate::from_num_days_from_ce_opt` (defined for
/// every day number in range) and `NaiveDate::format` with `"%a %Y-%m-%d"`:
/// the abbreviated weekday name followed by the date, a function of the day
/// number alone.
#[verifier::external_body]
pub fn day_heading(day: u64) -> (r: String)
    requires
        1 <= day <= MAX_DAY,
    ensures
        r@ == heading_of(day as int),
{
    let date = chrono::NaiveDate::from_num_days_from_ce_opt(day as i32).unwrap();
    date.format("%a %Y-%m-%d").to_string()
}

/// Relies on chrono's `NaiveDate::from_num_days_from_ce_opt` (defined for
/// every day number in range) and `NaiveDate::format` with `"%a %b %d"`:
/// the abbreviated weekday and month names with the day of the month, a
/// function of the day number alone.
#[verifier::external_body]
pub fn day_menu_label(day: u64) -> (r: String)
    requires
        1 <= day <= MAX_DAY,
    ensures
        r@ == menu_label_of(day as int),
{
    let date = chrono::NaiveDate::from_num_days_from_ce_opt(day as i32).unwrap();
    date.format("%a %b %d").to_string()
}

/// Relies on chrono's `Local::now` and `Datelike::num_days_from_ce`: the
/// day number of today's date in the machine's local time zone.  The value
/// follows the clock, so only its representable range (`i32`) is promised.
#[verifier::external_body]
pub fn current_day_number() -> (r: i64)
    ensures
        -2147483648 <= r <= 2147483647,
{
    chrono::Local::now().date_naive().num_days_from_ce() as i64
}

/// Today's day number, narrowed to the range the library works in; `None`
/// when the clock reports a date outside it.
pub fn valid_day(raw: i64) -> (r: Option<u64>)
    ensures
        match r {
            Some(d) => 1 <= d <= MAX_DAY && d == raw,
            None => raw < 1 || raw > MAX_DAY,
        },
{
    if 1 <= raw && raw <= MAX_DAY as i64 {
        Some(raw as u64)
    } else {
        None
    }
}

/// How many weekdays are enabled in a seven-entry table.
pub fn count_allowed(allowed: &Vec<bool>) -> (c: u64)
    requires
        allowed.len() == 7,
    ensures
        c == count_true(allowed@),
        c <= 7,
{
    let mut c: u64 = 0;
    let mut i: usize = 0;
    while i < 7
        invariant
            allowed.len() == 7,
            i <= 7,
            c == count_true(allowed@.take(i as int)),
            c <= i,
        decreases 7 - i,
    {
        proof {
            assert(allowed@.take(i + 1).drop_last() =~= allowed@.take(i as int));
            assert(allowed@.take(i + 1).last() == allowed@[i as int]);
        }
        if allowed[i] {
            c = c + 1;
        }
        i = i + 1;
    }
    proof {
        assert(allowed@.take(7) =~= allowed@);
    }
    c
}

} // verus!
