//! Calendar dates of the proleptic Gregorian calendar, years 1 through 9999.
//!
//! A [`Date`] is a valid (year, month, day) triple. Two integer readings of a
//! date carry the contracts of this crate: its `key`, the number `yyyymmdd`,
//! which orders dates exactly as their ten-character text orders them, and its
//! `num`, the count of days since the day before 0001-01-01, from which the
//! day of the week follows.
use crate::parsing::{date_after, date_before, days_from_ce, days_of_month, weekday_from_monday};
use crate::text::{four_digits, push_char, push_four_digits, push_two_digits, two_digits};
use vstd::prelude::*;

verus! {

/// First year a [`Date`] can hold.
pub const MIN_YEAR: u32 = 1;

/// Last year a [`Date`] can hold: the last one that is written with four digits.
pub const MAX_YEAR: u32 = 9999;

/// Whether `year` is a leap year.
pub open spec fn is_leap_year(year: int) -> bool {
    year % 4 == 0 && (year % 100 != 0 || year % 400 == 0)
}

/// Number of days of month `month` of year `year`.
pub open spec fn days_in_month(year: int, month: int) -> int {
    if month == 2 {
        if is_leap_year(year) {
            29
        } else {
            28
        }
    } else if month == 4 || month == 6 || month == 9 || month == 11 {
        30
    } else {
        31
    }
}

/// Whether (year, month, day) names a day of the supported calendar.
pub open spec fn valid_date(year: int, month: int, day: int) -> bool {
    &&& MIN_YEAR <= year <= MAX_YEAR
    &&& 1 <= month <= 12
    &&& 1 <= day <= days_in_month(year, month)
}

/// Days of the calendar that lie before the first of January of `year`.
pub open spec fn days_before_year(year: int) -> int {
    365 * (year - 1) + (year - 1) / 4 - (year - 1) / 100 + (year - 1) / 400
}

/// Days of `year` that lie before the first of `month`.
pub open spec fn days_before_month(year: int, month: int) -> int {
    let base: int = if month <= 1 {
        0
    } else if month == 2 {
        31
    } else if month == 3 {
        59
    } else if month == 4 {
        90
    } else if month == 5 {
        120
    } else if month == 6 {
        151
    } else if month == 7 {
        181
    } else if month == 8 {
        212
    } else if month == 9 {
        243
    } else if month == 10 {
        273
    } else if month == 11 {
        304
    } else {
        334
    };
    if month > 2 && is_leap_year(year) {
        base + 1
    } else {
        base
    }
}

/// Day count of (year, month, day): 0001-01-01 is day 1, and each later day
/// counts one more.
pub open spec fn day_number(year: int, month: int, day: int) -> int {
    days_before_year(year) + days_before_month(year, month) + day
}

/// The number `yyyymmdd` of (year, month, day).
pub open spec fn date_key(year: int, month: int, day: int) -> int {
    year * 10000 + month * 100 + day
}

/// A day of the calendar.
#[derive(Clone, Copy, Debug, PartialEq, Eq, Structural, Hash)]
pub struct Date {
    year: u32,
    month: u32,
    day: u32,
}

impl Date {
    /// Every `Date` that code can hold is a day of the calendar.
    #[verifier::type_invariant]
    pub closed spec fn wf(self) -> bool {
        valid_date(self.year as int, self.month as int, self.day as int)
    }

    pub closed spec fn spec_year(self) -> int {
        self.year as int
    }

    pub closed spec fn spec_month(self) -> int {
        self.month as int
    }

    pub closed spec fn spec_day(self) -> int {
        self.day as int
    }

    /// The date that has the given fields.
    pub closed spec fn of(year: int, month: int, day: int) -> Date {
        Date { year: year as u32, month: month as u32, day: day as u32 }
    }

    /// The number `yyyymmdd`: dates compare as their keys do.
    pub open spec fn key(self) -> int {
        date_key(self.spec_year(), self.spec_month(), self.spec_day())
    }

    /// The day count since the day before 0001-01-01.
    pub open spec fn num(self) -> int {
        day_number(self.spec_year(), self.spec_month(), self.spec_day())
    }

    /// Day of the week, 0 for Monday through 6 for Sunday.
    pub open spec fn weekday(self) -> int {
        (self.num() - 1) % 7
    }

    /// 0001-01-01.
    pub open spec fn first() -> Date {
        Date::of(1, 1, 1)
    }

    /// 9999-12-31.
    pub open spec fn last() -> Date {
        Date::of(9999, 12, 31)
    }

    /// The next day of the calendar; the last day is its own successor.
    pub open spec fn succ(self) -> Date {
        if self == Date::last() {
            self
        } else if self.spec_day() < days_in_month(self.spec_year(), self.spec_month()) {
            Date::of(self.spec_year(), self.spec_month(), self.spec_day() + 1)
        } else if self.spec_month() < 12 {
            Date::of(self.spec_year(), self.spec_month() + 1, 1)
        } else {
            Date::of(self.spec_year() + 1, 1, 1)
        }
    }

    /// The previous day of the calendar; the first day is its own predecessor.
    pub open spec fn pred(self) -> Date {
        if self == Date::first() {
            self
        } else if self.spec_day() > 1 {
            Date::of(self.spec_year(), self.spec_month(), self.spec_day() - 1)
        } else if self.spec_month() > 1 {
            Date::of(
                self.spec_year(),
                self.spec_month() - 1,
                days_in_month(self.spec_year(), self.spec_month() - 1),
            )
        } else {
            Date::of(self.spec_year() - 1, 12, 31)
        }
    }

    /// The fields of a date made by [`Date::of`] are the ones it was made of,
    /// and a valid date is made of its fields.
    pub broadcast proof fn lemma_of(year: int, month: int, day: int)
        requires
            valid_date(year, month, day),
        ensures
            (#[trigger] Date::of(year, month, day)).wf(),
            Date::of(year, month, day).spec_year() == year,
            Date::of(year, month, day).spec_month() == month,
            Date::of(year, month, day).spec_day() == day,
    {
    }

    /// A valid date has valid fields and is determined by them.
    pub broadcast proof fn lemma_fields(self)
        requires
            #[trigger] self.wf(),
        ensures
            valid_date(self.spec_year(), self.spec_month(), self.spec_day()),
            self == Date::of(self.spec_year(), self.spec_month(), self.spec_day()),
    {
    }

    /// Dates with the same key are the same date.
    pub proof fn lemma_key_injective(self, other: Date)
        requires
            self.wf(),
            other.wf(),
            self.key() == other.key(),
        ensures
            self == other,
    {
    }

    /// Makes the date (year, month, day), if the calendar has that day.
    pub fn new(year: u32, month: u32, day: u32) -> (r: Option<Date>)
        ensures
            r is Some <==> valid_date(year as int, month as int, day as int),
            r matches Some(d) ==> d == Date::of(year as int, month as int, day as int) && d.wf(),
    {
        if year < MIN_YEAR || year > MAX_YEAR || month < 1 || month > 12 || day < 1 {
            return None;
        }
        if day > month_length(year, month) {
            return None;
        }
        Some(Date { year, month, day })
    }

    pub fn year(&self) -> (r: u32)
        ensures
            r == self.spec_year(),
            self.wf(),
    {
        proof {
            use_type_invariant(self);
        }
        self.year
    }

    pub fn month(&self) -> (r: u32)
        ensures
            r == self.spec_month(),
            self.wf(),
    {
        proof {
            use_type_invariant(self);
        }
        self.month
    }

    pub fn day(&self) -> (r: u32)
        ensures
            r == self.spec_day(),
            self.wf(),
    {
        proof {
            use_type_invariant(self);
        }
        self.day
    }
}

impl Date {
    /// Day count of 9999-12-31.
    pub open spec fn last_num() -> int {
        3652059
    }

    /// What the first and the last day of the calendar are.
    pub proof fn lemma_ends()
        ensures
            Date::first().wf(),
            Date::last().wf(),
            Date::first().key() == 10101,
            Date::last().key() == 99991231,
            Date::first().num() == 1,
            Date::last().num() == Date::last_num(),
            Date::first().weekday() == 0,
            Date::last().weekday() == 4,
    {
        Date::lemma_of(1, 1, 1);
        Date::lemma_of(9999, 12, 31);
    }

    /// Every date lies between the first and the last, by key and by day count.
    pub proof fn lemma_bounds(self)
        requires
            self.wf(),
        ensures
            10101 <= self.key() <= 99991231,
            1 <= self.num() <= Date::last_num(),
            0 <= self.weekday() < 7,
            self.key() == 10101 <==> self == Date::first(),
            self.key() == 99991231 <==> self == Date::last(),
    {
        Date::lemma_of(1, 1, 1);
        Date::lemma_of(9999, 12, 31);
        let y = self.spec_year();
        let m = self.spec_month();
        assert(days_before_year(y) <= days_before_year(9999)) by {
            lemma_days_before_year_monotone(y, 9999);
        }
        assert(days_before_year(1) <= days_before_year(y)) by {
            lemma_days_before_year_monotone(1, y);
        }
    }

    /// The day after `self` is a day of the calendar, later by key, and
    /// `self` is the day before it.
    pub proof fn lemma_succ_shape(self)
        requires
            self.wf(),
            self != Date::last(),
        ensures
            self.succ().wf(),
            self.succ().key() > self.key(),
            self.succ().pred() == self,
            self.succ() != Date::first(),
    {
        Date::lemma_of(1, 1, 1);
        Date::lemma_of(9999, 12, 31);
        let y = self.spec_year();
        let m = self.spec_month();
        let d = self.spec_day();
        if d < days_in_month(y, m) {
            Date::lemma_of(y, m, d + 1);
        } else if m < 12 {
            Date::lemma_of(y, m + 1, 1);
        } else {
            Date::lemma_of(y + 1, 1, 1);
        }
    }

    /// The day after `self` counts one more.
    pub proof fn lemma_succ_num(self)
        requires
            self.wf(),
            self != Date::last(),
        ensures
            self.succ().num() == self.num() + 1,
    {
        Date::lemma_of(9999, 12, 31);
        let y = self.spec_year();
        let m = self.spec_month();
        let d = self.spec_day();
        if d < days_in_month(y, m) {
            Date::lemma_of(y, m, d + 1);
        } else if m < 12 {
            Date::lemma_of(y, m + 1, 1);
            assert(days_before_month(y, m + 1) == days_before_month(y, m) + days_in_month(y, m));
        } else {
            Date::lemma_of(y + 1, 1, 1);
            lemma_year_length(y);
        }
    }

    /// No date lies between `self` and the day after it.
    pub proof fn lemma_succ_adjacent(self, x: Date)
        requires
            self.wf(),
            self != Date::last(),
            x.wf(),
            self.key() < x.key(),
        ensures
            self.succ().key() <= x.key(),
    {
        Date::lemma_of(9999, 12, 31);
        let y = self.spec_year();
        let m = self.spec_month();
        let d = self.spec_day();
        if d < days_in_month(y, m) {
            Date::lemma_of(y, m, d + 1);
        } else if m < 12 {
            Date::lemma_of(y, m + 1, 1);
        } else {
            Date::lemma_of(y + 1, 1, 1);
        }
    }

    /// The day after `self`: one more in day count, the next day of the week,
    /// later by key with no date between, and `self` is the day before it.
    pub proof fn lemma_succ(self)
        requires
            self.wf(),
            self != Date::last(),
        ensures
            self.succ().wf(),
            self.succ().num() == self.num() + 1,
            self.succ().weekday() == (self.weekday() + 1) % 7,
            self.succ().key() > self.key(),
            self.succ().pred() == self,
            self.succ() != Date::first(),
            forall|x: Date| x.wf() && self.key() < x.key() ==> self.succ().key() <= #[trigger] x.key(),
    {
        self.lemma_succ_shape();
        self.lemma_succ_num();
        assert forall|x: Date| x.wf() && self.key() < x.key() implies self.succ().key()
            <= #[trigger] x.key() by {
            self.lemma_succ_adjacent(x);
        }
    }

    /// The day before `self` is a day of the calendar, and `self` is the day
    /// after it.
    pub proof fn lemma_pred_shape(self)
        requires
            self.wf(),
            self != Date::first(),
        ensures
            self.pred().wf(),
            self.pred().succ() == self,
            self.pred() != Date::last(),
    {
        Date::lemma_of(1, 1, 1);
        Date::lemma_of(9999, 12, 31);
        let y = self.spec_year();
        let m = self.spec_month();
        let d = self.spec_day();
        if d > 1 {
            Date::lemma_of(y, m, d - 1);
        } else if m > 1 {
            Date::lemma_of(y, m - 1, days_in_month(y, m - 1));
        } else {
            Date::lemma_of(y - 1, 12, 31);
        }
    }

    /// The day before `self`: the mirror image of [`Date::lemma_succ`].
    pub proof fn lemma_pred(self)
        requires
            self.wf(),
            self != Date::first(),
        ensures
            self.pred().wf(),
            self.pred().num() == self.num() - 1,
            self.weekday() == (self.pred().weekday() + 1) % 7,
            self.pred().key() < self.key(),
            self.pred().succ() == self,
            self.pred() != Date::last(),
            forall|x: Date| x.wf() && x.key() < self.key() ==> #[trigger] x.key() <= self.pred().key(),
    {
        self.lemma_pred_shape();
        let p = self.pred();
        p.lemma_succ();
        assert forall|x: Date| x.wf() && x.key() < self.key() implies #[trigger] x.key()
            <= p.key() by {
            if p.key() < x.key() {
                p.lemma_succ_adjacent(x);
            }
        }
    }

    /// 0001-01-01.
    pub fn min() -> (r: Date)
        ensures
            r == Date::first(),
            r.wf(),
    {
        proof {
            Date::lemma_of(1, 1, 1);
        }
        Date { year: 1, month: 1, day: 1 }
    }

    /// 9999-12-31.
    pub fn max() -> (r: Date)
        ensures
            r == Date::last(),
            r.wf(),
    {
        proof {
            Date::lemma_of(9999, 12, 31);
        }
        Date { year: 9999, month: 12, day: 31 }
    }

    /// Whether `self` is 0001-01-01.
    pub fn is_min(&self) -> (r: bool)
        ensures
            r == (*self == Date::first()),
            self.wf(),
    {
        proof {
            use_type_invariant(self);
            Date::lemma_of(1, 1, 1);
        }
        self.year == 1 && self.month == 1 && self.day == 1
    }

    /// Whether `self` is 9999-12-31.
    pub fn is_max(&self) -> (r: bool)
        ensures
            r == (*self == Date::last()),
            self.wf(),
    {
        proof {
            use_type_invariant(self);
            Date::lemma_of(9999, 12, 31);
        }
        self.year == 9999 && self.month == 12 && self.day == 31
    }

    /// The number `yyyymmdd`.
    pub fn key_number(&self) -> (r: u32)
        ensures
            r == self.key(),
            self.wf(),
    {
        proof {
            use_type_invariant(self);
        }
        self.year * 10000 + self.month * 100 + self.day
    }

    /// The day count since the day before 0001-01-01.
    pub fn day_count(&self) -> (r: u32)
        ensures
            r == self.num(),
            1 <= r <= Date::last_num(),
            self.wf(),
    {
        proof {
            use_type_invariant(self);
            self.lemma_bounds();
        }
        let count: i32 = days_from_ce(self.year as i32, self.month, self.day);
        count as u32
    }

    /// Day of the week, 0 for Monday through 6 for Sunday.
    pub fn weekday_index(&self) -> (r: u32)
        ensures
            r == self.weekday(),
            r < 7,
            self.wf(),
    {
        proof {
            use_type_invariant(self);
            self.lemma_bounds();
        }
        weekday_from_monday(self.year as i32, self.month, self.day)
    }

    /// The next day of the calendar, `None` after the last one.
    pub fn next_day(&self) -> (r: Option<Date>)
        ensures
            self.wf(),
            *self == Date::last() ==> r is None,
            *self != Date::last() ==> r == Some(self.succ()) && self.succ().wf(),
    {
        proof {
            use_type_invariant(self);
        }
        if self.is_max() {
            return None;
        }
        proof {
            self.lemma_succ();
            self.succ().lemma_bounds();
            reveal_with_fuel(Date::plus, 2);
        }
        self.add_days(1)
    }

    /// The previous day of the calendar, `None` before the first one.
    pub fn prev_day(&self) -> (r: Option<Date>)
        ensures
            self.wf(),
            *self == Date::first() ==> r is None,
            *self != Date::first() ==> r == Some(self.pred()) && self.pred().wf(),
    {
        proof {
            use_type_invariant(self);
        }
        if self.is_min() {
            return None;
        }
        proof {
            self.lemma_pred();
            self.pred().lemma_bounds();
            reveal_with_fuel(Date::minus, 2);
        }
        self.sub_days(1)
    }

    /// Whether `self` is an earlier day than `other`.
    pub fn is_before(&self, other: &Date) -> (r: bool)
        ensures
            r == (self.key() < other.key()),
    {
        self.key_number() < other.key_number()
    }
}

/// A year adds its length to the days before it.
pub proof fn lemma_year_length(year: int)
    requires
        1 <= year,
    ensures
        days_before_year(year + 1) == days_before_year(year) + 365 + if is_leap_year(year) {
            1int
        } else {
            0int
        },
{
}

/// Later years have more days before them.
pub proof fn lemma_days_before_year_monotone(a: int, b: int)
    requires
        1 <= a <= b,
    ensures
        days_before_year(a) + 365 * (b - a) <= days_before_year(b),
    decreases b - a,
{
    if a < b {
        lemma_days_before_year_monotone(a, b - 1);
        lemma_year_length(b - 1);
    }
}

/// The text `YYYY-MM-DD` of (year, month, day).
pub open spec fn date_text(year: int, month: int, day: int) -> Seq<char> {
    four_digits(year) + seq!['-'] + two_digits(month) + seq!['-'] + two_digits(day)
}

/// The text `HH:MM:SS` of a second of the day.
pub open spec fn time_text(second: int) -> Seq<char> {
    two_digits(second / 3600) + seq![':'] + two_digits(second / 60 % 60) + seq![':'] + two_digits(
        second % 60,
    )
}

impl Date {
    /// The date `n` days after `self`, stopping at the last day.
    pub open spec fn plus(self, n: nat) -> Date
        decreases n,
    {
        if n == 0 {
            self
        } else {
            self.succ().plus((n - 1) as nat)
        }
    }

    /// The date `n` days before `self`, stopping at the first day.
    pub open spec fn minus(self, n: nat) -> Date
        decreases n,
    {
        if n == 0 {
            self
        } else {
            self.pred().minus((n - 1) as nat)
        }
    }

    /// The text `YYYY-MM-DD` of the date.
    pub open spec fn text(self) -> Seq<char> {
        date_text(self.spec_year(), self.spec_month(), self.spec_day())
    }

    /// Going `n` days on adds `n` to the day count, as long as the calendar lasts.
    pub proof fn lemma_plus(self, n: nat)
        requires
            self.wf(),
        ensures
            self.plus(n).wf(),
            self.num() + n <= Date::last_num() ==> self.plus(n).num() == self.num() + n,
            self.num() + n >= Date::last_num() ==> self.plus(n) == Date::last(),
            n > 0 ==> self.plus(n) == self.plus((n - 1) as nat).succ(),
        decreases n,
    {
        Date::lemma_ends();
        self.lemma_bounds();
        if n > 0 {
            if self == Date::last() {
                self.succ().lemma_plus((n - 1) as nat);
            } else {
                self.lemma_succ();
                self.succ().lemma_plus((n - 1) as nat);
                if n == 1 {
                } else {
                    self.lemma_plus((n - 1) as nat);
                }
            }
            if self.num() + n >= Date::last_num() && self.plus(n) != Date::last() {
                self.plus(n).lemma_bounds();
                lemma_num_injective(self.plus(n), Date::last());
            }
        } else {
            if self.num() >= Date::last_num() {
                lemma_num_injective(self, Date::last());
            }
        }
    }

    /// Going `n` days back takes `n` from the day count, as long as the calendar lasts.
    pub proof fn lemma_minus(self, n: nat)
        requires
            self.wf(),
        ensures
            self.minus(n).wf(),
            self.num() - n >= 1 ==> self.minus(n).num() == self.num() - n,
            self.num() - n <= 1 ==> self.minus(n) == Date::first(),
            n > 0 ==> self.minus(n) == self.minus((n - 1) as nat).pred(),
        decreases n,
    {
        Date::lemma_ends();
        self.lemma_bounds();
        if n > 0 {
            if self == Date::first() {
                self.pred().lemma_minus((n - 1) as nat);
            } else {
                self.lemma_pred();
                self.pred().lemma_minus((n - 1) as nat);
                if n == 1 {
                } else {
                    self.lemma_minus((n - 1) as nat);
                }
            }
            if self.num() - n <= 1 && self.minus(n) != Date::first() {
                self.minus(n).lemma_bounds();
                lemma_num_injective(self.minus(n), Date::first());
            }
        } else {
            if self.num() <= 1 {
                lemma_num_injective(self, Date::first());
            }
        }
    }

    /// Going `n` days on and then `n` days back leads to where one started.
    pub proof fn lemma_plus_minus(self, n: nat)
        requires
            self.wf(),
            self.num() + n <= Date::last_num(),
        ensures
            self.plus(n).minus(n) == self,
        decreases n,
    {
        if n > 0 {
            self.lemma_plus(n);
            self.lemma_plus((n - 1) as nat);
            let before = self.plus((n - 1) as nat);
            before.lemma_bounds();
            Date::lemma_ends();
            before.lemma_succ();
            self.lemma_plus_minus((n - 1) as nat);
        }
    }

    /// The date `n` days after `self`, `None` where the calendar ends before it.
    pub fn add_days(&self, n: u64) -> (r: Option<Date>)
        ensures
            self.wf(),
            r is Some <==> self.num() + n <= Date::last_num(),
            r matches Some(d) ==> d == self.plus(n as nat) && d.wf() && d.num() == self.num() + n,
    {
        let count: u32 = self.day_count();
        if n > (3652059 - count) as u64 {
            return None;
        }
        proof {
            self.lemma_fields();
            self.lemma_plus(n as nat);
        }
        let (year, month, day) = date_after(self.year as i32, self.month, self.day, n);
        Some(Date { year: year as u32, month, day })
    }

    /// The date `n` days before `self`, `None` where the calendar begins after it.
    pub fn sub_days(&self, n: u64) -> (r: Option<Date>)
        ensures
            self.wf(),
            r is Some <==> self.num() - n >= 1,
            r matches Some(d) ==> d == self.minus(n as nat) && d.wf() && d.num() == self.num() - n,
    {
        let count: u32 = self.day_count();
        if n > (count - 1) as u64 {
            return None;
        }
        proof {
            self.lemma_fields();
            self.lemma_minus(n as nat);
        }
        let (year, month, day) = date_before(self.year as i32, self.month, self.day, n);
        Some(Date { year: year as u32, month, day })
    }

    /// The first day of the month of `self`.
    pub fn first_of_month(&self) -> (r: Date)
        ensures
            self.wf(),
            r.wf(),
            r == Date::of(self.spec_year(), self.spec_month(), 1),
    {
        proof {
            use_type_invariant(self);
            Date::lemma_of(self.spec_year(), self.spec_month(), 1);
        }
        Date { year: self.year, month: self.month, day: 1 }
    }

    /// The last day of the month of `self`.
    pub fn last_of_month(&self) -> (r: Date)
        ensures
            self.wf(),
            r.wf(),
            r == Date::of(
                self.spec_year(),
                self.spec_month(),
                days_in_month(self.spec_year(), self.spec_month()),
            ),
    {
        proof {
            use_type_invariant(self);
            Date::lemma_of(
                self.spec_year(),
                self.spec_month(),
                days_in_month(self.spec_year(), self.spec_month()),
            );
        }
        let length: u32 = days_of_month(self.year as i32, self.month, self.day);
        Date { year: self.year, month: self.month, day: length }
    }

    /// Appends the text `YYYY-MM-DD` of the date to `out`.
    pub fn write_text(&self, out: &mut String)
        ensures
            self.wf(),
            final(out)@ == old(out)@ + self.text(),
    {
        proof {
            use_type_invariant(self);
        }
        push_four_digits(out, self.year);
        push_char(out, '-');
        push_two_digits(out, self.month);
        push_char(out, '-');
        push_two_digits(out, self.day);
        assert(out@ =~= old(out)@ + self.text());
    }

    /// The text `YYYY-MM-DD` of the date.
    pub fn to_text(&self) -> (r: String)
        ensures
            self.wf(),
            r@ == self.text(),
    {
        let mut out: String = String::new();
        self.write_text(&mut out);
        assert(out@ =~= self.text());
        out
    }
}

/// Dates in the order of their keys are in the order of their day counts.
pub proof fn lemma_key_order(a: Date, b: Date)
    requires
        a.wf(),
        b.wf(),
        a.key() <= b.key(),
    ensures
        a.num() <= b.num(),
        a.key() < b.key() ==> a.num() < b.num(),
{
    let ya = a.spec_year();
    let yb = b.spec_year();
    a.lemma_fields();
    b.lemma_fields();
    if ya < yb {
        lemma_days_before_year_monotone(ya + 1, yb);
        lemma_year_length(ya);
    }
}

/// Dates with the same day count are the same date.
pub proof fn lemma_num_injective(a: Date, b: Date)
    requires
        a.wf(),
        b.wf(),
        a.num() == b.num(),
    ensures
        a == b,
{
    let ya = a.spec_year();
    let yb = b.spec_year();
    a.lemma_fields();
    b.lemma_fields();
    if ya < yb {
        lemma_days_before_year_monotone(ya + 1, yb);
        lemma_year_length(ya);
    } else if yb < ya {
        lemma_days_before_year_monotone(yb + 1, ya);
        lemma_year_length(yb);
    }
}

/// Whether `year` is a leap year.
pub fn leap_year(year: u32) -> (r: bool)
    ensures
        r == is_leap_year(year as int),
{
    year % 4 == 0 && (year % 100 != 0 || year % 400 == 0)
}

/// Number of days of month `month` of year `year`.
pub fn month_length(year: u32, month: u32) -> (r: u32)
    ensures
        r == days_in_month(year as int, month as int),
{
    if month == 2 {
        if leap_year(year) {
            29
        } else {
            28
        }
    } else if month == 4 || month == 6 || month == 9 || month == 11 {
        30
    } else {
        31
    }
}

} // verus!
