//! A calendar date together with a time of day, to the second: the local
//! wall-clock reading a session cursor points at.
use crate::calendar::{time_text, Date};
use crate::parsing::{moment_after, moment_before};
use crate::text::{push_char, push_two_digits};
use vstd::prelude::*;

verus! {

/// Seconds of one day.
pub const SECONDS_PER_DAY: u32 = 86400;

/// A date and a second of that day.
#[derive(Clone, Copy, Debug, PartialEq, Eq, Structural, Hash)]
pub struct Instant {
    date: Date,
    second: u32,
}

impl Instant {
    /// Every `Instant` that code can hold has a valid date and a second below 86400.
    #[verifier::type_invariant]
    pub closed spec fn wf(self) -> bool {
        self.date.wf() && self.second < SECONDS_PER_DAY
    }

    pub closed spec fn spec_date(self) -> Date {
        self.date
    }

    /// Seconds since midnight.
    pub closed spec fn spec_second(self) -> int {
        self.second as int
    }

    /// The instant that has the given date and second of the day.
    pub closed spec fn of(date: Date, second: int) -> Instant {
        Instant { date, second: second as u32 }
    }

    /// Whether `self` is earlier than `other`: on an earlier day, or earlier
    /// on the same day.
    pub open spec fn precedes(self, other: Instant) -> bool {
        self.spec_date().key() < other.spec_date().key() || (self.spec_date().key()
            == other.spec_date().key() && self.spec_second() < other.spec_second())
    }

    /// The text `YYYY-MM-DD HH:MM:SS` of the instant.
    pub open spec fn text(self) -> Seq<char> {
        self.spec_date().text() + seq![' '] + time_text(self.spec_second())
    }

    /// The instant `n` seconds after `self`.
    pub open spec fn plus_seconds(self, n: nat) -> Instant {
        Instant::of(
            self.spec_date().plus(((self.spec_second() + n) / 86400) as nat),
            (self.spec_second() + n) % 86400,
        )
    }

    /// How many days before the date of `self` the instant `n` seconds before
    /// `self` lies.
    pub open spec fn days_back(self, n: nat) -> nat {
        if n <= self.spec_second() {
            0
        } else {
            ((n - self.spec_second() + 86399) / 86400) as nat
        }
    }

    /// The instant `n` seconds before `self`.
    pub open spec fn minus_seconds(self, n: nat) -> Instant {
        Instant::of(
            self.spec_date().minus(self.days_back(n)),
            self.spec_second() - n + 86400 * self.days_back(n),
        )
    }

    /// The parts of an instant made by [`Instant::of`] are the ones it was made of.
    pub broadcast proof fn lemma_of(date: Date, second: int)
        requires
            date.wf(),
            0 <= second < 86400,
        ensures
            (#[trigger] Instant::of(date, second)).wf(),
            Instant::of(date, second).spec_date() == date,
            Instant::of(date, second).spec_second() == second,
    {
    }

    /// A valid instant has valid parts and is determined by them.
    pub broadcast proof fn lemma_parts(self)
        requires
            #[trigger] self.wf(),
        ensures
            self.spec_date().wf(),
            0 <= self.spec_second() < 86400,
            self == Instant::of(self.spec_date(), self.spec_second()),
    {
    }

    /// The instant at `hour:minute:second` of `date`, if the day has that time.
    pub fn new(date: Date, hour: u32, minute: u32, second: u32) -> (r: Option<Instant>)
        ensures
            r is Some <==> hour < 24 && minute < 60 && second < 60,
            r matches Some(t) ==> t == Instant::of(date, hour * 3600 + minute * 60 + second)
                && t.wf(),
    {
        if hour >= 24 || minute >= 60 || second >= 60 {
            return None;
        }
        proof {
            use_type_invariant(&date);
        }
        Some(Instant { date, second: hour * 3600 + minute * 60 + second })
    }

    /// The first second of `date`.
    pub fn midnight(date: Date) -> (r: Instant)
        ensures
            r == Instant::of(date, 0),
            r.wf(),
    {
        proof {
            use_type_invariant(&date);
        }
        Instant { date, second: 0 }
    }

    pub fn date(&self) -> (r: Date)
        ensures
            r == self.spec_date(),
            r.wf(),
            self.wf(),
    {
        proof {
            use_type_invariant(self);
        }
        self.date
    }

    /// Seconds since midnight.
    pub fn second_of_day(&self) -> (r: u32)
        ensures
            r == self.spec_second(),
            r < 86400,
            self.wf(),
    {
        proof {
            use_type_invariant(self);
        }
        self.second
    }

    /// The same time of day on `date`.
    pub fn with_date(&self, date: Date) -> (r: Instant)
        ensures
            r == Instant::of(date, self.spec_second()),
            r.wf(),
            self.wf(),
    {
        proof {
            use_type_invariant(self);
            use_type_invariant(&date);
        }
        Instant { date, second: self.second }
    }

    /// The same day at `hour:minute`, keeping the seconds within the minute.
    pub fn with_hour_minute(&self, hour: u32, minute: u32) -> (r: Instant)
        requires
            hour < 24,
            minute < 60,
        ensures
            r == Instant::of(self.spec_date(), hour * 3600 + minute * 60 + self.spec_second() % 60),
            r.wf(),
            self.wf(),
    {
        proof {
            use_type_invariant(self);
        }
        Instant { date: self.date, second: hour * 3600 + minute * 60 + self.second % 60 }
    }

    /// Whether `self` is earlier than `other`.
    pub fn is_before(&self, other: &Instant) -> (r: bool)
        ensures
            r == self.precedes(*other),
    {
        let a: u32 = self.date.key_number();
        let b: u32 = other.date.key_number();
        a < b || (a == b && self.second < other.second)
    }

    /// The instant `n` seconds after `self`, `None` where the calendar ends before it.
    pub fn add_seconds(&self, n: u64) -> (r: Option<Instant>)
        ensures
            self.wf(),
            r is Some <==> self.spec_date().num() + (self.spec_second() + n) / 86400
                <= Date::last_num(),
            r matches Some(t) ==> t == self.plus_seconds(n as nat) && t.wf(),
    {
        proof {
            use_type_invariant(self);
        }
        let days: u64 = n / 86400 + (n % 86400 + self.second as u64) / 86400;
        assert(days == (self.spec_second() + n) / 86400) by {
            let q = n as int / 86400;
            let r = n as int % 86400;
            let s = self.spec_second();
            assert(n as int == 86400 * q + r);
            assert((s + n) / 86400 == q + (r + s) / 86400) by (nonlinear_arith)
                requires
                    n as int == 86400 * q + r,
                    0 <= r < 86400,
                    0 <= s < 86400,
                    0 <= q,
            ;
        }
        let count: u32 = self.date.day_count();
        if days > (3652059 - count) as u64 {
            return None;
        }
        proof {
            self.date.lemma_fields();
            self.date.lemma_plus(days as nat);
        }
        let (year, month, day, second) = moment_after(
            self.date.year() as i32,
            self.date.month(),
            self.date.day(),
            self.second,
            n,
        );
        match Date::new(year as u32, month, day) {
            Some(date) => Some(Instant { date, second }),
            None => None,
        }
    }

    /// The instant `n` seconds before `self`, `None` where the calendar begins after it.
    pub fn sub_seconds(&self, n: u64) -> (r: Option<Instant>)
        ensures
            self.wf(),
            r is Some <==> self.spec_date().num() - self.days_back(n as nat) >= 1,
            r matches Some(t) ==> t == self.minus_seconds(n as nat) && t.wf(),
    {
        proof {
            use_type_invariant(self);
            self.spec_date().lemma_bounds();
        }
        let days: u64 = if n <= self.second as u64 {
            0
        } else {
            let rest: u64 = n - self.second as u64;
            if rest % 86400 == 0 {
                rest / 86400
            } else {
                rest / 86400 + 1
            }
        };
        assert(days == self.days_back(n as nat)) by {
            if n > self.second {
                let rest = n - self.second;
                let w = rest as int / 86400;
                let p = rest as int % 86400;
                assert(rest as int == 86400 * w + p);
                assert((rest + 86399) / 86400 == if p == 0 {
                    w
                } else {
                    w + 1
                }) by (nonlinear_arith)
                    requires
                        rest as int == 86400 * w + p,
                        0 <= p < 86400,
                        0 <= w,
                ;
            }
        }
        let count: u32 = self.date.day_count();
        if days > (count - 1) as u64 {
            return None;
        }
        proof {
            self.date.lemma_fields();
            self.date.lemma_minus(days as nat);
        }
        let (year, month, day, second) = moment_before(
            self.date.year() as i32,
            self.date.month(),
            self.date.day(),
            self.second,
            n,
        );
        match Date::new(year as u32, month, day) {
            Some(date) => Some(Instant { date, second }),
            None => None,
        }
    }

    /// Appends the text `YYYY-MM-DD HH:MM:SS` of the instant to `out`.
    pub fn write_text(&self, out: &mut String)
        ensures
            self.wf(),
            final(out)@ == old(out)@ + self.text(),
    {
        proof {
            use_type_invariant(self);
        }
        self.date.write_text(out);
        push_char(out, ' ');
        push_two_digits(out, self.second / 3600);
        push_char(out, ':');
        push_two_digits(out, self.second / 60 % 60);
        push_char(out, ':');
        push_two_digits(out, self.second % 60);
        assert(out@ =~= old(out)@ + self.text());
    }

    /// The text `YYYY-MM-DD HH:MM:SS` of the instant.
    pub fn to_text(&self) -> (r: String)
        ensures
            self.wf(),
            r@ == self.text(),
    {
        let mut out: String = String::new();
        self.write_text(&mut out);
        assert(out@ =~= self.text());
        out
    }
}

} // verus!
