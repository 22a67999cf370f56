//! The calendar year of a moment, in the Gregorian calendar and UTC.
use crate::openlibrary_client::DAY;
use vstd::prelude::*;

verus! {

/// The days after which the calendar repeats itself: 400 years.
pub const CYCLE_DAYS: u64 = 146_097;

/// How many of the years 1 to `n` are leap years.
pub open spec fn leaps(n: int) -> int {
    n / 4 - n / 100 + n / 400
}

/// How many days lie between the beginnings of 1970 and of the year `y`.
pub open spec fn days_before(y: int) -> int {
    365 * (y - 1970) + leaps(y - 1) - leaps(1969)
}

/// The moment `now_secs` seconds after the beginning of 1970 falls in the year `y`.
pub open spec fn in_year(now_secs: u64, y: int) -> bool {
    days_before(y) * 86400 <= now_secs < days_before(y + 1) * 86400
}

/// The year in which the moment `now_secs` seconds after the beginning of 1970 falls.
pub open spec fn year_of(now_secs: u64) -> nat {
    choose|y: nat| in_year(now_secs, y as int)
}

/// A moment falls in one year only: that in which it falls is its year.
pub proof fn law_year_of(now_secs: u64, y: nat)
    requires
        in_year(now_secs, y as int),
    ensures
        year_of(now_secs) == y,
{
    let chosen = year_of(now_secs);
    assert(in_year(now_secs, chosen as int));
    if chosen < y {
        lemma_years_follow(chosen as int, y as int);
    } else if y < chosen {
        lemma_years_follow(y as int, chosen as int);
    }
}

/// Every moment falls in a year.
pub proof fn law_every_moment_has_a_year(now_secs: u64)
    ensures
        in_year(now_secs, year_of(now_secs) as int),
{
    lemma_year_from(now_secs, 1970);
}

proof fn lemma_year_from(now_secs: u64, y: nat)
    requires
        1970 <= y,
        days_before(y as int) * 86400 <= now_secs,
    ensures
        exists|z: nat| in_year(now_secs, z as int),
    decreases now_secs - days_before(y as int) * 86400,
{
    if in_year(now_secs, y as int) {
    } else {
        lemma_year_from(now_secs, y + 1);
    }
}

/// A later year begins no earlier than the one before it ends.
proof fn lemma_years_follow(a: int, b: int)
    requires
        0 <= a < b,
    ensures
        days_before(a + 1) <= days_before(b),
{
}

/// How many days the year `y` has.
fn year_days(y: u64) -> (r: u64)
    requires
        1 <= y,
    ensures
        r == days_before(y as int + 1) - days_before(y as int),
        365 <= r <= 366,
{
    if y % 4 == 0 && (y % 100 != 0 || y % 400 == 0) {
        366
    } else {
        365
    }
}

/// The year in which the moment `now_secs` seconds after the beginning of 1970 falls.
pub fn calendar_year(now_secs: u64) -> (y: u64)
    ensures
        y == year_of(now_secs),
        days_before(y as int) * 86400 <= now_secs < days_before(y as int + 1) * 86400,
        1970 <= y,
{
    let days: u64 = now_secs / DAY;
    let cycles: u64 = days / CYCLE_DAYS;
    let rest: u64 = days % CYCLE_DAYS;
    let first: u64 = 1970 + 400 * cycles;
    assert(days_before(first as int) == 146097 * cycles);
    let mut y: u64 = first;
    let mut passed: u64 = 0;
    let mut length: u64 = year_days(y);
    while rest - passed >= length
        invariant
            passed <= rest < CYCLE_DAYS,
            days == CYCLE_DAYS * cycles + rest,
            days <= 213503982334601,
            first == 1970 + 400 * cycles,
            first <= y,
            365 * (y - first) <= passed,
            days_before(y as int) == CYCLE_DAYS * cycles + passed,
            length == days_before(y as int + 1) - days_before(y as int),
            365 <= length <= 366,
        decreases rest - passed,
    {
        passed += length;
        y += 1;
        length = year_days(y);
    }
    proof {
        law_year_of(now_secs, y as nat);
    }
    y
}

/// Years have 365 days, and leap years one more: those that 4 divides, but not 100 unless
/// 400 does. The first begins with 1970.
pub proof fn law_years_have_their_days(y: int)
    requires
        1 <= y,
    ensures
        days_before(1970) == 0,
        days_before(y + 1) - days_before(y) == if y % 400 == 0 || (y % 4 == 0 && y % 100 != 0) {
            366int
        } else {
            365int
        },
{
}

/// Within a day's seconds of one another two moments fall in the same year or in years
/// that follow one another, and a later moment never falls in an earlier year.
pub proof fn law_years_follow_the_clock(earlier: u64, later: u64)
    requires
        earlier <= later,
    ensures
        year_of(earlier) <= year_of(later),
        later - earlier <= 86_400 ==> year_of(later) <= year_of(earlier) + 1,
{
    law_every_moment_has_a_year(earlier);
    law_every_moment_has_a_year(later);
    let a = year_of(earlier) as int;
    let b = year_of(later) as int;
    if b < a {
        lemma_years_follow(b, a);
    }
    if later - earlier <= 86_400 && a + 1 < b {
        lemma_years_follow(a + 1, b);
    }
}

} // verus!
