//! The session cursor: an instant tagged with a period, which steps from one
//! trading session to the next and knows the bounds of its session, week and
//! month.
use crate::calendar::{days_in_month, valid_date, Date};
use crate::error::ParseFailure;
use crate::holidays::{
    is_trading_date, lemma_next_then_previous, lemma_previous_then_next, lemma_snap_back,
    lemma_snap_forward, snap_back, snap_backward, snap_forward, snap_onward, FULL_FORMAT,
};
use crate::instant::Instant;
use crate::parsing::{
    format_with, formatted, parse_date_time, parsed_date_time, span_seconds, whole_seconds,
};
use crate::period::Period;
use vstd::prelude::*;
use vstd::string::*;

verus! {

/// Second of the day at which a session opens, 09:30.
pub const OPEN_SECOND: u32 = 34200;

/// Second of the day at which a session closes, 15:00.
pub const CLOSE_SECOND: u32 = 54000;

/// A date and time tagged with the period it is a cursor of.
#[derive(Debug, Clone, Copy, PartialEq, Eq, Structural, Hash)]
pub struct TradingDay {
    period: Period,
    date: Instant,
}

/// The instant that the fields read from a text stand for, if they name a day
/// of the calendar and a time of the day.
pub open spec fn instant_of_fields(fields: (i32, u32, u32, u32, u32, u32)) -> Option<Instant> {
    if valid_date(fields.0 as int, fields.1 as int, fields.2 as int) && fields.3 < 24 && fields.4
        < 60 && fields.5 < 60 {
        Some(
            Instant::of(
                Date::of(fields.0 as int, fields.1 as int, fields.2 as int),
                fields.3 * 3600 + fields.4 * 60 + fields.5,
            ),
        )
    } else {
        None
    }
}

/// The text of a time of day that a date string of ten characters is read with.
pub open spec fn midnight_suffix() -> Seq<char> {
    seq![' ', '0', '0', ':', '0', '0', ':', '0', '0']
}

/// The text of the seconds that a date string without seconds is read with.
pub open spec fn seconds_suffix() -> Seq<char> {
    seq![':', '0', '0']
}

/// The fields that a cursor string is read as: a string of ten characters as
/// a date at midnight, any other as a date with hour and minute, with or
/// without seconds.
pub open spec fn fields_of_text(text: Seq<char>) -> Option<(i32, u32, u32, u32, u32, u32)> {
    if text.len() == 10 {
        parsed_date_time(text + midnight_suffix(), FULL_FORMAT@)
    } else if parsed_date_time(text + seconds_suffix(), FULL_FORMAT@) is Some {
        parsed_date_time(text + seconds_suffix(), FULL_FORMAT@)
    } else {
        parsed_date_time(text, FULL_FORMAT@)
    }
}

/// The cursor that a string is read as: the day it names, moved back to a
/// trading day; a day cursor for a string of ten characters, a cursor of five
/// minutes for any other.
pub open spec fn trading_day_of_text(text: Seq<char>) -> Option<TradingDay> {
    match fields_of_text(text) {
        Some(fields) => match instant_of_fields(fields) {
            Some(at) => Some(
                TradingDay::of(
                    if text.len() == 10 {
                        Period::Day
                    } else {
                        Period::Minute(5)
                    },
                    Instant::of(snap_back(at.spec_date()), at.spec_second()),
                ),
            ),
            None => None,
        },
        None => None,
    }
}

/// The same time of day on the trading day after the day of `at`.
pub open spec fn next_session(at: Instant) -> Instant {
    Instant::of(snap_forward(at.spec_date().succ()), at.spec_second())
}

/// The same time of day on the trading day before the day of `at`.
pub open spec fn previous_session(at: Instant) -> Instant {
    Instant::of(snap_back(at.spec_date().pred()), at.spec_second())
}

/// The Monday of the week of `date`.
pub open spec fn week_start(date: Date) -> Date {
    date.minus(date.weekday() as nat)
}

/// The Sunday of the week of `date`.
pub open spec fn week_end(date: Date) -> Date {
    date.plus((6 - date.weekday()) as nat)
}

/// How many times [`TradingDay::next`] must step from `from` until it is no
/// longer before `to`.
pub open spec fn sessions_until(from: Instant, to: Instant) -> nat
    decreases Date::last_num() - from.spec_date().num(),
{
    if from.wf() && from.precedes(to) && from.spec_date() != Date::last() {
        proof {
            lemma_next_session(from);
        }
        1 + sessions_until(next_session(from), to)
    } else {
        0
    }
}

/// One step of [`sessions_until`].
pub proof fn lemma_sessions_until(from: Instant, to: Instant)
    requires
        from.wf(),
    ensures
        sessions_until(from, to) == if from.precedes(to) && from.spec_date() != Date::last() {
            1 + sessions_until(next_session(from), to)
        } else {
            0
        },
{
}

/// The next session is a later day of the calendar, a trading day, at the
/// same time of day.
pub proof fn lemma_next_session(at: Instant)
    requires
        at.wf(),
        at.spec_date() != Date::last(),
    ensures
        next_session(at).wf(),
        next_session(at).spec_second() == at.spec_second(),
        next_session(at).spec_date() == snap_forward(at.spec_date().succ()),
        is_trading_date(next_session(at).spec_date()),
        at.spec_date().num() < next_session(at).spec_date().num() <= Date::last_num(),
        at.spec_date().key() < next_session(at).spec_date().key(),
{
    at.lemma_parts();
    let d = at.spec_date();
    d.lemma_succ();
    lemma_snap_forward(d.succ());
    let n = snap_forward(d.succ());
    n.lemma_bounds();
    Instant::lemma_of(n, at.spec_second());
    crate::calendar::lemma_key_order(d.succ(), n);
}

/// The previous session is an earlier day of the calendar, a trading day, at
/// the same time of day.
pub proof fn lemma_previous_session(at: Instant)
    requires
        at.wf(),
        at.spec_date() != Date::first(),
    ensures
        previous_session(at).wf(),
        previous_session(at).spec_second() == at.spec_second(),
        previous_session(at).spec_date() == snap_back(at.spec_date().pred()),
        is_trading_date(previous_session(at).spec_date()),
        1 <= previous_session(at).spec_date().num() < at.spec_date().num(),
        previous_session(at).spec_date().key() < at.spec_date().key(),
{
    at.lemma_parts();
    let d = at.spec_date();
    d.lemma_pred();
    lemma_snap_back(d.pred());
    let p = snap_back(d.pred());
    p.lemma_bounds();
    Instant::lemma_of(p, at.spec_second());
    crate::calendar::lemma_key_order(p, d.pred());
}

/// The week of a date starts on a Monday on or before it and ends on the
/// Sunday six days later, if the calendar lasts that long.
pub proof fn lemma_week(date: Date)
    requires
        date.wf(),
    ensures
        week_start(date).wf(),
        week_start(date).weekday() == 0,
        week_start(date).num() == date.num() - date.weekday(),
        date.weekday() == 0 ==> week_start(date) == date,
        week_end(date).wf(),
        date.num() + 6 - date.weekday() <= Date::last_num() ==> week_end(date).weekday() == 6
            && week_end(date).num() == date.num() + 6 - date.weekday(),
{
    date.lemma_bounds();
    date.lemma_minus(date.weekday() as nat);
    date.lemma_plus((6 - date.weekday()) as nat);
}

impl TradingDay {
    pub closed spec fn spec_period(self) -> Period {
        self.period
    }

    /// The instant the cursor points at.
    pub closed spec fn spec_instant(self) -> Instant {
        self.date
    }

    /// The cursor of `period` at `at`.
    pub closed spec fn of(period: Period, at: Instant) -> TradingDay {
        TradingDay { period, date: at }
    }

    /// The date the cursor points at.
    pub open spec fn spec_date(self) -> Date {
        self.spec_instant().spec_date()
    }

    /// A cursor is what it was made of.
    pub broadcast proof fn lemma_of(period: Period, at: Instant)
        ensures
            (#[trigger] TradingDay::of(period, at)).spec_period() == period,
            TradingDay::of(period, at).spec_instant() == at,
    {
    }

    /// A cursor is made of its period and its instant.
    pub broadcast proof fn lemma_parts(self)
        ensures
            self == TradingDay::of(#[trigger] self.spec_period(), self.spec_instant()),
    {
    }

    /// What [`TradingDay::to_string`] writes: the date for a day or week
    /// cursor, date and time for a minute cursor.
    pub open spec fn text(self) -> Seq<char> {
        match self.spec_period() {
            Period::Minute(_) => self.spec_instant().text(),
            _ => self.spec_date().text(),
        }
    }

    pub fn new(period: Period, date: Instant) -> (r: TradingDay)
        ensures
            r == TradingDay::of(period, date),
    {
        TradingDay { period, date }
    }

    pub fn period(&self) -> (r: &Period)
        ensures
            *r == self.spec_period(),
    {
        &self.period
    }

    /// The instant the cursor points at.
    pub fn instant(&self) -> (r: Instant)
        ensures
            r == self.spec_instant(),
            r.wf(),
    {
        proof {
            use_type_invariant(&self.date);
        }
        self.date
    }

    /// The day cursor at `date`.
    pub fn day(date: Instant) -> (r: TradingDay)
        ensures
            r == TradingDay::of(Period::Day, date),
    {
        TradingDay::new(Period::Day, date)
    }

    /// Reads a cursor from a string: `YYYY-MM-DD` gives a day cursor,
    /// `YYYY-MM-DD HH:MM` or `YYYY-MM-DD HH:MM:SS` a cursor of five minutes.
    /// The day is moved back to a trading day.
    pub fn parse(text: &str) -> (r: Result<TradingDay, ParseFailure>)
        ensures
            r is Ok <==> trading_day_of_text(text@) is Some,
            r matches Ok(t) ==> trading_day_of_text(text@) == Some(t),
    {
        proof {
            reveal_strlit(" 00:00:00");
            reveal_strlit(":00");
            assert(" 00:00:00"@ =~= midnight_suffix());
            assert(":00"@ =~= seconds_suffix());
        }
        let day_only: bool = text.unicode_len() == 10;
        let fields: Option<(i32, u32, u32, u32, u32, u32)> = if day_only {
            let full: String = String::from_str(text).concat(" 00:00:00");
            match parse_date_time(full.as_str(), FULL_FORMAT) {
                Ok(f) => Some(f),
                Err(_) => None,
            }
        } else {
            let full: String = String::from_str(text).concat(":00");
            match parse_date_time(full.as_str(), FULL_FORMAT) {
                Ok(f) => Some(f),
                Err(_) => match parse_date_time(text, FULL_FORMAT) {
                    Ok(f) => Some(f),
                    Err(_) => None,
                },
            }
        };
        assert(fields == fields_of_text(text@));
        match fields {
            Some(f) => match instant_from_fields(f.0, f.1, f.2, f.3, f.4, f.5) {
                Some(at) => {
                    let found: Date = snap_backward(at.date());
                    let period: Period = if day_only {
                        Period::Day
                    } else {
                        Period::Minute(5)
                    };
                    Ok(TradingDay::new(period, at.with_date(found)))
                },
                None => Err(ParseFailure),
            },
            None => Err(ParseFailure),
        }
    }

    /// The cursor that `day` names, or, without a name, the latest session as
    /// of `now`.
    pub fn trading(day: Option<String>, now: Instant) -> (r: Result<TradingDay, ParseFailure>)
        requires
            day is None && now.spec_date() == Date::first() ==> now.spec_second() >= OPEN_SECOND,
        ensures
            day matches Some(text) ==> (r is Ok <==> trading_day_of_text(text@) is Some) && (r matches Ok(
                t,
            ) ==> trading_day_of_text(text@) == Some(t)),
            day is None ==> r == Ok::<TradingDay, ParseFailure>(TradingDay::latest_at(now)),
    {
        match day {
            Some(text) => TradingDay::parse(text.as_str()),
            None => Ok(TradingDay::latest(now)),
        }
    }

    /// The session that is the latest one as of `now`: the trading day at or
    /// before the day of `now`, or the one before it where `now` is a trading
    /// day whose session has not opened yet.
    pub open spec fn latest_at(now: Instant) -> TradingDay {
        TradingDay::of(
            Period::Day,
            Instant::of(
                if is_trading_date(now.spec_date()) && now.spec_second() < OPEN_SECOND {
                    snap_back(now.spec_date().pred())
                } else {
                    snap_back(now.spec_date())
                },
                0,
            ),
        )
    }

    /// The latest session as of `now`, as a day cursor at midnight.
    pub fn latest(now: Instant) -> (r: TradingDay)
        requires
            now.spec_date() == Date::first() ==> now.spec_second() >= OPEN_SECOND,
        ensures
            r == TradingDay::latest_at(now),
            is_trading_date(r.spec_date()),
    {
        let today: Instant = Instant::midnight(now.date());
        proof {
            use_type_invariant(&now);
            now.lemma_parts();
            lemma_snap_back(now.spec_date());
            Instant::lemma_of(now.spec_date(), 0);
            Instant::lemma_of(snap_back(now.spec_date()), 0);
            Instant::lemma_of(snap_back(now.spec_date()), OPEN_SECOND as int);
        }
        let latest: TradingDay = TradingDay::day(today.with_date(snap_backward(today.date())));
        let open: TradingDay = latest.open_time();
        if now.is_before(&open.instant()) {
            proof {
                let found = snap_back(now.spec_date());
                if found.key() != now.spec_date().key() {
                }
                found.lemma_key_injective(now.spec_date());
                lemma_previous_session(latest.spec_instant());
            }
            latest.previous()
        } else {
            proof {
                let found = snap_back(now.spec_date());
                if is_trading_date(now.spec_date()) {
                    assert(found == now.spec_date());
                }
            }
            latest
        }
    }

    /// The text that `chrono` writes for the cursor's instant by `pattern`;
    /// `None` where the pattern cannot be written.
    pub fn format(&self, pattern: &str) -> (r: Option<String>)
        ensures
            r is Some <==> self.formatted_by(pattern@) is Some,
            r matches Some(s) ==> self.formatted_by(pattern@) == Some(s@),
    {
        let at: Instant = self.instant();
        let date: Date = at.date();
        let second: u32 = at.second_of_day();
        proof {
            date.lemma_fields();
        }
        format_with(
            date.year() as i32,
            date.month(),
            date.day(),
            second / 3600,
            second / 60 % 60,
            second % 60,
            pattern,
        )
    }

    /// What [`TradingDay::format`] returns.
    pub open spec fn formatted_by(self, pattern: Seq<char>) -> Option<Seq<char>> {
        formatted(
            self.spec_date().spec_year(),
            self.spec_date().spec_month(),
            self.spec_date().spec_day(),
            self.spec_instant().spec_second() / 3600,
            self.spec_instant().spec_second() / 60 % 60,
            self.spec_instant().spec_second() % 60,
            pattern,
        )
    }

    /// The day cursor on the trading day before this one, at the same time of day.
    pub fn previous(&self) -> (r: TradingDay)
        requires
            self.spec_date() != Date::first(),
        ensures
            r == self.preceding(),
            is_trading_date(r.spec_date()),
            r.spec_instant().precedes(self.spec_instant()),
    {
        let at: Instant = self.instant();
        proof {
            lemma_previous_session(at);
        }
        let before: Date = at.date().prev_day().unwrap();
        TradingDay::day(at.with_date(snap_backward(before)))
    }

    /// The day cursor on the trading day after this one, at the same time of day.
    pub fn next(&self) -> (r: TradingDay)
        requires
            self.spec_date() != Date::last(),
        ensures
            r == self.following(),
            is_trading_date(r.spec_date()),
            self.spec_instant().precedes(r.spec_instant()),
    {
        let at: Instant = self.instant();
        proof {
            lemma_next_session(at);
        }
        let after: Date = at.date().next_day().unwrap();
        TradingDay::day(at.with_date(snap_onward(after)))
    }

    /// Whether the cursor points at an earlier instant than `other`; the
    /// periods do not count.
    pub fn is_before(&self, other: &TradingDay) -> (r: bool)
        ensures
            r == self.spec_instant().precedes(other.spec_instant()),
    {
        self.instant().is_before(&other.instant())
    }

    /// How many sessions lie between two cursors: the steps of
    /// [`TradingDay::next`] that lead from the earlier one to or past the
    /// later one; 0 for cursors at the same instant.
    pub fn between(&self, other: &TradingDay) -> (r: usize)
        ensures
            r == if self.spec_instant().precedes(other.spec_instant()) {
                sessions_until(self.spec_instant(), other.spec_instant())
            } else {
                sessions_until(other.spec_instant(), self.spec_instant())
            },
    {
        let a: Instant = self.instant();
        let b: Instant = other.instant();
        let (low, high) = if a.is_before(&b) {
            (a, b)
        } else {
            (b, a)
        };
        let mut min: Instant = low;
        let mut days: usize = 0;
        let ghost target = if self.spec_instant().precedes(other.spec_instant()) {
            sessions_until(self.spec_instant(), other.spec_instant())
        } else {
            sessions_until(other.spec_instant(), self.spec_instant())
        };
        proof {
            low.lemma_parts();
            low.spec_date().lemma_bounds();
        }
        while min.is_before(&high)
            invariant
                low.wf(),
                min.wf(),
                1 <= low.spec_date().num(),
                days + low.spec_date().num() <= min.spec_date().num() <= Date::last_num(),
                days + sessions_until(min, high) == target,
                target == if self.spec_instant().precedes(other.spec_instant()) {
                    sessions_until(self.spec_instant(), other.spec_instant())
                } else {
                    sessions_until(other.spec_instant(), self.spec_instant())
                },
            decreases Date::last_num() - min.spec_date().num(),
        {
            proof {
                lemma_sessions_until(min, high);
            }
            match next_instant(min) {
                Some(after) => {
                    proof {
                        lemma_next_session(min);
                    }
                    min = after;
                    days = days + 1;
                },
                None => {
                    return days;
                },
            }
        }
        days
    }

    /// The same as [`TradingDay::between`].
    pub fn days(&self, other: &TradingDay) -> (r: usize)
        ensures
            r == if self.spec_instant().precedes(other.spec_instant()) {
                sessions_until(self.spec_instant(), other.spec_instant())
            } else {
                sessions_until(other.spec_instant(), self.spec_instant())
            },
    {
        self.between(other)
    }

    /// The cursor of five minutes at 09:30 of the cursor's day, with the seconds kept.
    pub fn open_time(&self) -> (r: TradingDay)
        ensures
            r == TradingDay::of(
                Period::Minute(5),
                Instant::of(self.spec_date(), OPEN_SECOND + self.spec_instant().spec_second() % 60),
            ),
    {
        TradingDay::new(Period::Minute(5), self.instant().with_hour_minute(9, 30))
    }

    /// The cursor of five minutes at 15:00 of the cursor's day, with the seconds kept.
    pub fn close_time(&self) -> (r: TradingDay)
        ensures
            r == TradingDay::of(
                Period::Minute(5),
                Instant::of(self.spec_date(), CLOSE_SECOND + self.spec_instant().spec_second() % 60),
            ),
    {
        TradingDay::new(Period::Minute(5), self.instant().with_hour_minute(15, 0))
    }

    /// Whether the cursor's session has closed before `now`.
    pub fn is_now_closed(&self, now: Instant) -> (r: bool)
        ensures
            r == Instant::of(
                self.spec_date(),
                CLOSE_SECOND + self.spec_instant().spec_second() % 60,
            ).precedes(now),
    {
        self.close_time().instant().is_before(&now)
    }

    /// The cursors that label the span from `self` to `end`, for a cursor
    /// that is not before `end`: the two of them.
    pub fn label(&self, end: &TradingDay) -> (r: Vec<TradingDay>)
        requires
            !self.spec_instant().precedes(end.spec_instant()),
        ensures
            r@ == seq![*self, *end],
    {
        let mut items: Vec<TradingDay> = Vec::new();
        items.push(*self);
        items.push(*end);
        assert(items@ =~= seq![*self, *end]);
        items
    }

    /// The week cursor on the Monday of the cursor's week, whether or not the
    /// market trades on it.
    pub fn week_start_day(&self) -> (r: TradingDay)
        ensures
            r == TradingDay::of(
                Period::Week,
                Instant::of(week_start(self.spec_date()), self.spec_instant().spec_second()),
            ),
            r.spec_period() == Period::Week,
            r.spec_date() == week_start(self.spec_date()),
            r.spec_date().weekday() == 0,
    {
        let at: Instant = self.instant();
        let date: Date = at.date();
        proof {
            lemma_week(date);
            date.lemma_bounds();
            at.lemma_parts();
            Instant::lemma_of(week_start(date), at.spec_second());
        }
        let monday: Date = date.sub_days(date.weekday_index() as u64).unwrap();
        TradingDay::new(Period::Week, at.with_date(monday))
    }

    /// The week cursor on the Sunday of the cursor's week.
    pub fn week_end_day(&self) -> (r: TradingDay)
        requires
            self.spec_date().num() + 6 - self.spec_date().weekday() <= Date::last_num(),
        ensures
            r == TradingDay::of(
                Period::Week,
                Instant::of(week_end(self.spec_date()), self.spec_instant().spec_second()),
            ),
            r.spec_period() == Period::Week,
            r.spec_date() == week_end(self.spec_date()),
            r.spec_date().weekday() == 6,
    {
        let at: Instant = self.instant();
        let date: Date = at.date();
        proof {
            lemma_week(date);
            at.lemma_parts();
            Instant::lemma_of(week_end(date), at.spec_second());
        }
        let sunday: Date = date.add_days((6 - date.weekday_index()) as u64).unwrap();
        TradingDay::new(Period::Week, at.with_date(sunday))
    }

    /// The day cursor on the first day of the cursor's month.
    pub fn month_start_day(&self) -> (r: TradingDay)
        ensures
            r == TradingDay::of(
                Period::Day,
                Instant::of(
                    Date::of(self.spec_date().spec_year(), self.spec_date().spec_month(), 1),
                    self.spec_instant().spec_second(),
                ),
            ),
    {
        let at: Instant = self.instant();
        TradingDay::new(Period::Day, at.with_date(at.date().first_of_month()))
    }

    /// The day cursor on the last day of the cursor's month.
    pub fn month_end_day(&self) -> (r: TradingDay)
        ensures
            r == TradingDay::of(
                Period::Day,
                Instant::of(
                    Date::of(
                        self.spec_date().spec_year(),
                        self.spec_date().spec_month(),
                        days_in_month(self.spec_date().spec_year(), self.spec_date().spec_month()),
                    ),
                    self.spec_instant().spec_second(),
                ),
            ),
    {
        let at: Instant = self.instant();
        TradingDay::new(Period::Day, at.with_date(at.date().last_of_month()))
    }

    /// The cursor tagged with `period`; a week cursor moves to the Monday of
    /// its week, any other stays where it is.
    pub fn with_period(self, period: Period) -> (r: TradingDay)
        ensures
            r == TradingDay::of(
                period,
                if period is Week {
                    Instant::of(week_start(self.spec_date()), self.spec_instant().spec_second())
                } else {
                    self.spec_instant()
                },
            ),
    {
        match period {
            Period::Week => TradingDay::new(period, self.week_start_day().instant()),
            _ => TradingDay::new(period, self.instant()),
        }
    }

    /// The date of a day or week cursor as `YYYY-MM-DD`; date and time of a
    /// minute cursor as `YYYY-MM-DD HH:MM:SS`.
    pub fn to_string(&self) -> (r: String)
        ensures
            r@ == self.text(),
    {
        match self.period {
            Period::Minute(_) => self.instant().to_text(),
            _ => self.instant().date().to_text(),
        }
    }
}

/// Whether the instant `seconds` seconds after `at` is within the calendar.
pub open spec fn reaches(at: Instant, seconds: nat) -> bool {
    at.spec_date().num() + (at.spec_second() + seconds) / 86400 <= Date::last_num()
}

/// Whether the instant `seconds` seconds before `at` is within the calendar.
pub open spec fn reaches_back(at: Instant, seconds: nat) -> bool {
    at.spec_date().num() - at.days_back(seconds) >= 1
}

/// The instant `n` sessions after `at`; `None` where the calendar ends first.
pub open spec fn sessions_on(at: Instant, n: nat) -> Option<Instant>
    decreases n,
{
    if n == 0 {
        Some(at)
    } else if at.spec_date() == Date::last() {
        None
    } else {
        sessions_on(next_session(at), (n - 1) as nat)
    }
}

/// The instant `n` sessions before `at`; `None` where the calendar begins first.
pub open spec fn sessions_back(at: Instant, n: nat) -> Option<Instant>
    decreases n,
{
    if n == 0 {
        Some(at)
    } else if at.spec_date() == Date::first() {
        None
    } else {
        sessions_back(previous_session(at), (n - 1) as nat)
    }
}

/// The same time of day on the Monday `n` weeks after the Monday of the week
/// of `at`.
pub open spec fn weeks_on(at: Instant, n: nat) -> Option<Instant> {
    let monday = week_start(at.spec_date());
    if monday.num() + 7 * n <= Date::last_num() {
        Some(Instant::of(monday.plus(7 * n), at.spec_second()))
    } else {
        None
    }
}

/// The same time of day on the Monday `n` weeks before the Monday of the week
/// of `at`.
pub open spec fn weeks_back(at: Instant, n: nat) -> Option<Instant> {
    let monday = week_start(at.spec_date());
    if monday.num() - 7 * n >= 1 {
        Some(Instant::of(monday.minus(7 * n), at.spec_second()))
    } else {
        None
    }
}

/// One window of `minutes` minutes on from `at`: that much later, or, where
/// that is past the close of the session of `at`, that much after the open of
/// the session that follows.
pub open spec fn window_on(at: Instant, minutes: nat) -> Option<Instant> {
    let close = Instant::of(at.spec_date(), CLOSE_SECOND + at.spec_second() % 60);
    let moved = at.plus_seconds(60 * minutes);
    let open = Instant::of(
        snap_forward(moved.spec_date().succ()),
        OPEN_SECOND + moved.spec_second() % 60,
    );
    if !reaches(at, 60 * minutes) {
        None
    } else if !close.precedes(moved) {
        Some(moved)
    } else if moved.spec_date() == Date::last() || !reaches(open, 60 * minutes) {
        None
    } else {
        Some(open.plus_seconds(60 * minutes))
    }
}

/// One window of `minutes` minutes back from `at`: that much earlier, or,
/// where that is before the open of the session of `at`, the close of the
/// session before.
pub open spec fn window_back(at: Instant, minutes: nat) -> Option<Instant> {
    let open = Instant::of(at.spec_date(), OPEN_SECOND + at.spec_second() % 60);
    let moved = at.minus_seconds(60 * minutes);
    if !reaches_back(at, 60 * minutes) {
        None
    } else if !moved.precedes(open) {
        Some(moved)
    } else if moved.spec_date() == Date::first() {
        None
    } else {
        Some(
            Instant::of(
                snap_back(moved.spec_date().pred()),
                CLOSE_SECOND + moved.spec_second() % 60,
            ),
        )
    }
}

/// `n` windows of `minutes` minutes on from `at`.
pub open spec fn windows_on(at: Instant, minutes: nat, n: nat) -> Option<Instant>
    decreases n,
{
    if n == 0 {
        Some(at)
    } else {
        match window_on(at, minutes) {
            Some(t) => windows_on(t, minutes, (n - 1) as nat),
            None => None,
        }
    }
}

/// `n` windows of `minutes` minutes back from `at`.
pub open spec fn windows_back(at: Instant, minutes: nat, n: nat) -> Option<Instant>
    decreases n,
{
    if n == 0 {
        Some(at)
    } else {
        match window_back(at, minutes) {
            Some(t) => windows_back(t, minutes, (n - 1) as nat),
            None => None,
        }
    }
}

/// How many steps of `period` fit into `seconds` seconds; none into a
/// negative span.
pub open spec fn steps_in(period: Period, seconds: int) -> nat {
    if seconds <= 0 {
        0
    } else {
        match period {
            Period::Day => (seconds / 86400) as nat,
            Period::Week => (seconds / 86400 / 7) as nat,
            Period::Minute(m) => (seconds / 60 / (m as int)) as nat,
        }
    }
}

/// The same time of day on the trading day after the day of `at`, `None` on
/// the last day of the calendar.
pub fn next_instant(at: Instant) -> (r: Option<Instant>)
    ensures
        r == if at.spec_date() == Date::last() {
            None
        } else {
            Some(next_session(at))
        },
        r matches Some(t) ==> t.wf(),
{
    match at.date().next_day() {
        Some(after) => {
            proof {
                lemma_next_session(at);
            }
            Some(at.with_date(snap_onward(after)))
        },
        None => None,
    }
}

/// The same time of day on the trading day before the day of `at`, `None` on
/// the first day of the calendar.
pub fn previous_instant(at: Instant) -> (r: Option<Instant>)
    ensures
        r == if at.spec_date() == Date::first() {
            None
        } else {
            Some(previous_session(at))
        },
        r matches Some(t) ==> t.wf(),
{
    match at.date().prev_day() {
        Some(before) => {
            proof {
                lemma_previous_session(at);
            }
            Some(at.with_date(snap_backward(before)))
        },
        None => None,
    }
}

/// The instant `n` sessions after `at`.
pub fn sessions_forward(at: Instant, n: u64) -> (r: Option<Instant>)
    ensures
        r == sessions_on(at, n as nat),
        r matches Some(t) ==> t.wf(),
{
    let mut cur: Instant = at;
    let mut left: u64 = n;
    proof {
        use_type_invariant(&at);
    }
    while left > 0
        invariant
            cur.wf(),
            sessions_on(cur, left as nat) == sessions_on(at, n as nat),
        decreases left,
    {
        match next_instant(cur) {
            Some(t) => {
                cur = t;
            },
            None => {
                return None;
            },
        }
        left = left - 1;
    }
    Some(cur)
}

/// The instant `n` sessions before `at`.
pub fn sessions_backward(at: Instant, n: u64) -> (r: Option<Instant>)
    ensures
        r == sessions_back(at, n as nat),
        r matches Some(t) ==> t.wf(),
{
    let mut cur: Instant = at;
    let mut left: u64 = n;
    proof {
        use_type_invariant(&at);
    }
    while left > 0
        invariant
            cur.wf(),
            sessions_back(cur, left as nat) == sessions_back(at, n as nat),
        decreases left,
    {
        match previous_instant(cur) {
            Some(t) => {
                cur = t;
            },
            None => {
                return None;
            },
        }
        left = left - 1;
    }
    Some(cur)
}

/// The Monday of the week of `date`.
pub fn monday_of(date: Date) -> (r: Date)
    ensures
        r == week_start(date),
        r.wf(),
        r.weekday() == 0,
        r.num() == date.num() - date.weekday(),
{
    proof {
        use_type_invariant(&date);
        lemma_week(date);
        date.lemma_bounds();
    }
    date.sub_days(date.weekday_index() as u64).unwrap()
}

/// The same time of day on the Monday `n` weeks after the Monday of the week
/// of `at`.
pub fn weeks_forward(at: Instant, n: u64) -> (r: Option<Instant>)
    ensures
        r == weeks_on(at, n as nat),
        r matches Some(t) ==> t.wf(),
{
    let monday: Date = monday_of(at.date());
    proof {
        monday.lemma_bounds();
        at.lemma_parts();
    }
    if n > 3652059 {
        return None;
    }
    match monday.add_days(7 * n) {
        Some(day) => {
            proof {
                Instant::lemma_of(day, at.spec_second());
            }
            Some(at.with_date(day))
        },
        None => None,
    }
}

/// The same time of day on the Monday `n` weeks before the Monday of the week
/// of `at`.
pub fn weeks_backward(at: Instant, n: u64) -> (r: Option<Instant>)
    ensures
        r == weeks_back(at, n as nat),
        r matches Some(t) ==> t.wf(),
{
    let monday: Date = monday_of(at.date());
    proof {
        monday.lemma_bounds();
        at.lemma_parts();
    }
    if n > 3652059 {
        return None;
    }
    match monday.sub_days(7 * n) {
        Some(day) => {
            proof {
                Instant::lemma_of(day, at.spec_second());
            }
            Some(at.with_date(day))
        },
        None => None,
    }
}

/// One window of `minutes` minutes on from `at`.
pub fn window_forward(at: Instant, minutes: usize) -> (r: Option<Instant>)
    ensures
        r == window_on(at, minutes as nat),
        r matches Some(t) ==> t.wf(),
{
    proof {
        use_type_invariant(&at);
        at.lemma_parts();
        at.spec_date().lemma_bounds();
    }
    let count: u64 = minutes as u64;
    if count > 6_000_000_000 {
        return None;
    }
    let span: u64 = 60 * count;
    let close: Instant = at.with_hour_minute(15, 0);
    match at.add_seconds(span) {
        None => None,
        Some(moved) => {
            if !close.is_before(&moved) {
                return Some(moved);
            }
            match moved.date().next_day() {
                None => None,
                Some(after) => {
                    let open: Instant = moved.with_date(snap_onward(after)).with_hour_minute(9, 30);
                    proof {
                        moved.lemma_parts();
                        moved.spec_date().lemma_succ();
                        lemma_snap_forward(moved.spec_date().succ());
                        Instant::lemma_of(
                            snap_forward(moved.spec_date().succ()),
                            moved.spec_second(),
                        );
                    }
                    open.add_seconds(span)
                },
            }
        },
    }
}

/// One window of `minutes` minutes back from `at`.
pub fn window_backward(at: Instant, minutes: usize) -> (r: Option<Instant>)
    ensures
        r == window_back(at, minutes as nat),
        r matches Some(t) ==> t.wf(),
{
    proof {
        use_type_invariant(&at);
        at.lemma_parts();
        at.spec_date().lemma_bounds();
    }
    let count: u64 = minutes as u64;
    if count > 6_000_000_000 {
        return None;
    }
    let span: u64 = 60 * count;
    let open: Instant = at.with_hour_minute(9, 30);
    match at.sub_seconds(span) {
        None => None,
        Some(moved) => {
            if !moved.is_before(&open) {
                return Some(moved);
            }
            match moved.date().prev_day() {
                None => None,
                Some(before) => {
                    proof {
                        moved.lemma_parts();
                        moved.spec_date().lemma_pred();
                        lemma_snap_back(moved.spec_date().pred());
                        Instant::lemma_of(snap_back(moved.spec_date().pred()), moved.spec_second());
                    }
                    Some(moved.with_date(snap_backward(before)).with_hour_minute(15, 0))
                },
            }
        },
    }
}

/// `n` windows of `minutes` minutes on from `at`.
pub fn windows_forward(at: Instant, minutes: usize, n: u64) -> (r: Option<Instant>)
    ensures
        r == windows_on(at, minutes as nat, n as nat),
        r matches Some(t) ==> t.wf(),
{
    let mut cur: Instant = at;
    let mut left: u64 = n;
    proof {
        use_type_invariant(&at);
    }
    while left > 0
        invariant
            cur.wf(),
            windows_on(cur, minutes as nat, left as nat) == windows_on(
                at,
                minutes as nat,
                n as nat,
            ),
        decreases left,
    {
        match window_forward(cur, minutes) {
            Some(t) => {
                cur = t;
            },
            None => {
                return None;
            },
        }
        left = left - 1;
    }
    Some(cur)
}

/// `n` windows of `minutes` minutes back from `at`.
pub fn windows_backward(at: Instant, minutes: usize, n: u64) -> (r: Option<Instant>)
    ensures
        r == windows_back(at, minutes as nat, n as nat),
        r matches Some(t) ==> t.wf(),
{
    let mut cur: Instant = at;
    let mut left: u64 = n;
    proof {
        use_type_invariant(&at);
    }
    while left > 0
        invariant
            cur.wf(),
            windows_back(cur, minutes as nat, left as nat) == windows_back(
                at,
                minutes as nat,
                n as nat,
            ),
        decreases left,
    {
        match window_backward(cur, minutes) {
            Some(t) => {
                cur = t;
            },
            None => {
                return None;
            },
        }
        left = left - 1;
    }
    Some(cur)
}

impl TradingDay {
    /// The cursor `step` steps of its period on: sessions for a day cursor,
    /// weeks counted from Monday for a week cursor, windows within and across
    /// sessions for a minute cursor. `None` where the calendar ends first.
    pub open spec fn plus(self, step: nat) -> Option<TradingDay> {
        let moved = match self.spec_period() {
            Period::Day => sessions_on(self.spec_instant(), step),
            Period::Week => weeks_on(self.spec_instant(), step),
            Period::Minute(m) => windows_on(self.spec_instant(), m as nat, step),
        };
        match moved {
            Some(at) => Some(TradingDay::of(self.spec_period(), at)),
            None => None,
        }
    }

    /// The cursor `step` steps of its period back; `None` where the calendar
    /// begins first.
    pub open spec fn minus(self, step: nat) -> Option<TradingDay> {
        let moved = match self.spec_period() {
            Period::Day => sessions_back(self.spec_instant(), step),
            Period::Week => weeks_back(self.spec_instant(), step),
            Period::Minute(m) => windows_back(self.spec_instant(), m as nat, step),
        };
        match moved {
            Some(at) => Some(TradingDay::of(self.spec_period(), at)),
            None => None,
        }
    }

    /// The cursor moved on by the steps of its period that fit into `seconds`
    /// seconds; a span shorter than one step moves nothing.
    pub open spec fn plus_span(self, seconds: int) -> Option<TradingDay> {
        if steps_in(self.spec_period(), seconds) > 0 {
            self.plus(steps_in(self.spec_period(), seconds))
        } else {
            Some(self)
        }
    }

    /// The cursor moved back by the steps of its period that fit into
    /// `seconds` seconds; a span shorter than one step moves nothing.
    pub open spec fn minus_span(self, seconds: int) -> Option<TradingDay> {
        if steps_in(self.spec_period(), seconds) > 0 {
            self.minus(steps_in(self.spec_period(), seconds))
        } else {
            Some(self)
        }
    }

    /// The day cursor that [`TradingDay::next`] returns.
    pub open spec fn following(self) -> TradingDay {
        TradingDay::of(Period::Day, next_session(self.spec_instant()))
    }

    /// The day cursor that [`TradingDay::previous`] returns.
    pub open spec fn preceding(self) -> TradingDay {
        TradingDay::of(Period::Day, previous_session(self.spec_instant()))
    }

    /// Whether `step` steps on and `step` steps back lead the cursor to where
    /// it started: a day cursor must stand on a trading day, a week cursor on
    /// a Monday, and a minute cursor must stand within its session and stay
    /// within it on the way. No step at all leaves day and minute cursors alone.
    pub open spec fn returns_after(self, step: nat) -> bool {
        match self.spec_period() {
            Period::Day => step == 0 || is_trading_date(self.spec_date()),
            Period::Week => self.spec_date().weekday() == 0,
            Period::Minute(m) => step == 0 || (OPEN_SECOND + self.spec_instant().spec_second() % 60
                <= self.spec_instant().spec_second() && self.spec_instant().spec_second() + 60 * m
                * step <= CLOSE_SECOND + self.spec_instant().spec_second() % 60),
        }
    }

    fn move_on(self, step: u64) -> (r: Option<TradingDay>)
        ensures
            r == self.plus(step as nat),
    {
        let moved: Option<Instant> = match self.period {
            Period::Day => sessions_forward(self.instant(), step),
            Period::Week => weeks_forward(self.instant(), step),
            Period::Minute(m) => windows_forward(self.instant(), m, step),
        };
        match moved {
            Some(at) => Some(TradingDay::new(self.period, at)),
            None => None,
        }
    }

    fn move_back(self, step: u64) -> (r: Option<TradingDay>)
        ensures
            r == self.minus(step as nat),
    {
        let moved: Option<Instant> = match self.period {
            Period::Day => sessions_backward(self.instant(), step),
            Period::Week => weeks_backward(self.instant(), step),
            Period::Minute(m) => windows_backward(self.instant(), m, step),
        };
        match moved {
            Some(at) => Some(TradingDay::new(self.period, at)),
            None => None,
        }
    }

    /// The cursor `step` steps on, or `None` where the calendar ends first.
    pub fn checked_add(self, step: usize) -> (r: Option<TradingDay>)
        ensures
            r == self.plus(step as nat),
    {
        self.move_on(step as u64)
    }

    /// The cursor `step` steps back, or `None` where the calendar begins first.
    pub fn checked_sub(self, step: usize) -> (r: Option<TradingDay>)
        ensures
            r == self.minus(step as nat),
    {
        self.move_back(step as u64)
    }

    /// The cursor `step` steps on.
    pub fn add(self, step: usize) -> (r: TradingDay)
        requires
            self.plus(step as nat) is Some,
        ensures
            self.plus(step as nat) == Some(r),
    {
        match self.checked_add(step) {
            Some(t) => t,
            None => self,
        }
    }

    /// The cursor `step` steps back.
    pub fn sub(self, step: usize) -> (r: TradingDay)
        requires
            self.minus(step as nat) is Some,
        ensures
            self.minus(step as nat) == Some(r),
    {
        match self.checked_sub(step) {
            Some(t) => t,
            None => self,
        }
    }

    /// The cursor moved on by the steps that fit into `seconds` seconds.
    pub fn add_seconds(self, seconds: i64) -> (r: Option<TradingDay>)
        requires
            self.spec_period() matches Period::Minute(m) ==> m > 0,
        ensures
            r == self.plus_span(seconds as int),
    {
        let steps: u64 = step_count(self.period, seconds);
        if steps > 0 {
            self.move_on(steps)
        } else {
            Some(self)
        }
    }

    /// The cursor moved back by the steps that fit into `seconds` seconds.
    pub fn sub_seconds(self, seconds: i64) -> (r: Option<TradingDay>)
        requires
            self.spec_period() matches Period::Minute(m) ==> m > 0,
        ensures
            r == self.minus_span(seconds as int),
    {
        let steps: u64 = step_count(self.period, seconds);
        if steps > 0 {
            self.move_back(steps)
        } else {
            Some(self)
        }
    }

    /// The cursor moved on by the steps that fit into `span`: what
    /// [`TradingDay::add_seconds`] returns for the whole seconds of `span`.
    pub fn add_duration(self, span: chrono::TimeDelta) -> (r: Option<TradingDay>)
        requires
            self.spec_period() matches Period::Minute(m) ==> m > 0,
        ensures
            r == self.plus_span(span_seconds(span)),
    {
        let seconds: i64 = whole_seconds(&span);
        self.add_seconds(seconds)
    }

    /// The cursor moved back by the steps that fit into `span`: what
    /// [`TradingDay::sub_seconds`] returns for the whole seconds of `span`.
    pub fn sub_duration(self, span: chrono::TimeDelta) -> (r: Option<TradingDay>)
        requires
            self.spec_period() matches Period::Minute(m) ==> m > 0,
        ensures
            r == self.minus_span(span_seconds(span)),
    {
        let seconds: i64 = whole_seconds(&span);
        self.sub_seconds(seconds)
    }
}

/// How many steps of `period` fit into `seconds` seconds.
pub fn step_count(period: Period, seconds: i64) -> (r: u64)
    requires
        period matches Period::Minute(m) ==> m > 0,
    ensures
        r == steps_in(period, seconds as int),
{
    if seconds <= 0 {
        return 0;
    }
    let span: u64 = seconds as u64;
    match period {
        Period::Day => span / 86400,
        Period::Week => span / 86400 / 7,
        Period::Minute(m) => span / 60 / (m as u64),
    }
}

/// The instant of the given fields, if they name a day of the calendar and a
/// time of the day.
pub fn instant_from_fields(
    year: i32,
    month: u32,
    day: u32,
    hour: u32,
    minute: u32,
    second: u32,
) -> (r: Option<Instant>)
    ensures
        r == instant_of_fields((year, month, day, hour, minute, second)),
        r matches Some(t) ==> t.wf(),
{
    if year < 1 {
        return None;
    }
    match Date::new(year as u32, month, day) {
        Some(date) => Instant::new(date, hour, minute, second),
        None => None,
    }
}

impl std::str::FromStr for TradingDay {
    type Err = ParseFailure;

    fn from_str(text: &str) -> (r: Result<TradingDay, ParseFailure>)
        ensures
            r is Ok <==> trading_day_of_text(text@) is Some,
            r matches Ok(t) ==> trading_day_of_text(text@) == Some(t),
    {
        TradingDay::parse(text)
    }
}

} // verus!
