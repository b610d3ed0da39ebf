//! What holds whatever the values: stepping a session cursor on and back
//! leads home, and the bars of one week become one bar.
use crate::bar::BarData;
use crate::calendar::Date;
use crate::holidays::{is_trading_date, lemma_next_then_previous, lemma_previous_then_next};
use crate::instant::Instant;
use crate::period::Period;
use crate::resample::{
    gathered, highest, keyed_by_week, lemma_keyed_keeps_volume, lowest, merge_adjacent,
    total_volume, week_bars_of, week_key_of,
};
use crate::trading_day::{
    lemma_next_session, lemma_previous_session, lemma_week, next_session, previous_session,
    sessions_back, sessions_on, week_start, weeks_back, weeks_on, window_back, window_on,
    windows_back, windows_on, TradingDay, CLOSE_SECOND, OPEN_SECOND,
};
use vstd::prelude::*;

verus! {

/// From a cursor on a trading day, the next session's previous session is at
/// the cursor's own instant; it is the cursor itself where that is a day cursor.
pub proof fn law_next_then_previous(c: TradingDay)
    requires
        c.spec_instant().wf(),
        is_trading_date(c.spec_date()),
        c.spec_date() != Date::last(),
    ensures
        c.following().spec_date() != Date::first(),
        c.following().preceding() == TradingDay::of(Period::Day, c.spec_instant()),
        c.spec_period() is Day ==> c.following().preceding() == c,
{
    let at = c.spec_instant();
    at.lemma_parts();
    lemma_next_session(at);
    lemma_next_then_previous(at.spec_date());
    TradingDay::lemma_of(Period::Day, next_session(at));
    c.lemma_parts();
}

/// From a cursor on a trading day, the previous session's next session is at
/// the cursor's own instant; it is the cursor itself where that is a day cursor.
pub proof fn law_previous_then_next(c: TradingDay)
    requires
        c.spec_instant().wf(),
        is_trading_date(c.spec_date()),
        c.spec_date() != Date::first(),
    ensures
        c.preceding().spec_date() != Date::last(),
        c.preceding().following() == TradingDay::of(Period::Day, c.spec_instant()),
        c.spec_period() is Day ==> c.preceding().following() == c,
{
    let at = c.spec_instant();
    at.lemma_parts();
    lemma_previous_session(at);
    lemma_previous_then_next(at.spec_date());
    TradingDay::lemma_of(Period::Day, previous_session(at));
    c.lemma_parts();
}

/// Going `n` sessions back is going `n - 1` sessions back and one more.
pub proof fn lemma_sessions_back_last(at: Instant, n: nat)
    requires
        n > 0,
    ensures
        sessions_back(at, n) == match sessions_back(at, (n - 1) as nat) {
            Some(t) => if t.spec_date() == Date::first() {
                None
            } else {
                Some(previous_session(t))
            },
            None => None,
        },
    decreases n,
{
    reveal_with_fuel(sessions_back, 3);
    if n > 1 && at.spec_date() != Date::first() {
        lemma_sessions_back_last(previous_session(at), (n - 1) as nat);
    }
}

/// From a trading day, `n` sessions on and `n` sessions back lead home.
pub proof fn lemma_sessions_return(at: Instant, n: nat)
    requires
        at.wf(),
        n == 0 || is_trading_date(at.spec_date()),
        sessions_on(at, n) is Some,
    ensures
        sessions_back(sessions_on(at, n)->0, n) == Some(at),
    decreases n,
{
    if n > 0 {
        let next = next_session(at);
        lemma_next_session(at);
        lemma_sessions_return(next, (n - 1) as nat);
        let far = sessions_on(at, n)->0;
        lemma_sessions_back_last(far, n);
        at.lemma_parts();
        lemma_next_then_previous(at.spec_date());
    }
}

/// From a Monday, `n` weeks on and `n` weeks back lead home.
pub proof fn lemma_weeks_return(at: Instant, n: nat)
    requires
        at.wf(),
        at.spec_date().weekday() == 0,
        weeks_on(at, n) is Some,
    ensures
        weeks_back(weeks_on(at, n)->0, n) == Some(at),
{
    at.lemma_parts();
    let day = at.spec_date();
    let days: nat = 7 * n;
    lemma_week(day);
    assert(week_start(day) == day);
    day.lemma_bounds();
    assert(day.num() + days <= Date::last_num());
    day.lemma_plus(days);
    let far = day.plus(days);
    assert(far.num() == day.num() + days);
    assert(far.weekday() == 0) by {
        lemma_weekday_weeks(day.num(), n as int);
    }
    Instant::lemma_of(far, at.spec_second());
    assert(weeks_on(at, n) == Some(Instant::of(far, at.spec_second())));
    lemma_week(far);
    assert(week_start(far) == far);
    day.lemma_plus_minus(days);
    assert(far.minus(days) == day);
}

/// Whole weeks later the day of the week is the same.
pub proof fn lemma_weekday_weeks(num: int, weeks: int)
    requires
        (num - 1) % 7 == 0,
    ensures
        (num + 7 * weeks - 1) % 7 == 0,
{
}

/// Within a session, `n` windows on stay on the day and add their seconds.
pub proof fn lemma_windows_on_inside(at: Instant, minutes: nat, n: nat)
    requires
        at.wf(),
        at.spec_second() + 60 * minutes * n <= CLOSE_SECOND + at.spec_second() % 60,
    ensures
        windows_on(at, minutes, n) == Some(
            Instant::of(at.spec_date(), at.spec_second() + 60 * minutes * n),
        ),
    decreases n,
{
    at.lemma_parts();
    let s = at.spec_second();
    let w = 60 * minutes;
    if n > 0 {
        assert(w * n == w * (n - 1) + w) by (nonlinear_arith);
        assert(w * (n - 1) >= 0) by (nonlinear_arith)
            requires
                w >= 0,
                n >= 1,
        ;
        let moved = Instant::of(at.spec_date(), s + w);
        at.spec_date().lemma_bounds();
        Instant::lemma_of(at.spec_date(), s + w);
        Instant::lemma_of(at.spec_date(), CLOSE_SECOND + s % 60);
        assert(at.plus_seconds(w) == moved);
        assert(window_on(at, minutes) == Some(moved));
        lemma_windows_on_inside(moved, minutes, (n - 1) as nat);
    }
}

/// Within a session, `n` windows back stay on the day and take their seconds.
pub proof fn lemma_windows_back_inside(at: Instant, minutes: nat, n: nat)
    requires
        at.wf(),
        OPEN_SECOND + at.spec_second() % 60 <= at.spec_second() - 60 * minutes * n,
    ensures
        windows_back(at, minutes, n) == Some(
            Instant::of(at.spec_date(), at.spec_second() - 60 * minutes * n),
        ),
    decreases n,
{
    at.lemma_parts();
    let s = at.spec_second();
    let w = 60 * minutes;
    if n > 0 {
        assert(w * n == w * (n - 1) + w) by (nonlinear_arith);
        assert(w * (n - 1) >= 0) by (nonlinear_arith)
            requires
                w >= 0,
                n >= 1,
        ;
        let moved = Instant::of(at.spec_date(), s - w);
        at.spec_date().lemma_bounds();
        Instant::lemma_of(at.spec_date(), s - w);
        Instant::lemma_of(at.spec_date(), OPEN_SECOND + s % 60);
        assert(at.days_back(w) == 0);
        assert(at.minus_seconds(w) == moved);
        assert(window_back(at, minutes) == Some(moved));
        lemma_windows_back_inside(moved, minutes, (n - 1) as nat);
    }
}

/// Within its session, a minute cursor that steps `n` windows on and `n`
/// windows back is where it started.
pub proof fn lemma_windows_return(at: Instant, minutes: nat, n: nat)
    requires
        at.wf(),
        n > 0,
        OPEN_SECOND + at.spec_second() % 60 <= at.spec_second(),
        at.spec_second() + 60 * minutes * n <= CLOSE_SECOND + at.spec_second() % 60,
    ensures
        windows_on(at, minutes, n) is Some,
        windows_back(windows_on(at, minutes, n)->0, minutes, n) == Some(at),
{
    at.lemma_parts();
    let s = at.spec_second();
    let span = 60 * minutes * n;
    let count = minutes * n;
    assert(span == 60 * count) by (nonlinear_arith)
        requires
            span == 60 * minutes * n,
            count == minutes * n,
    ;
    let far = Instant::of(at.spec_date(), s + span);
    lemma_windows_on_inside(at, minutes, n);
    Instant::lemma_of(at.spec_date(), s + span);
    assert((s + 60 * count) % 60 == s % 60);
    lemma_windows_back_inside(far, minutes, n);
}

/// A cursor that steps `n` times on and `n` times back is where it started,
/// for every cursor of which [`TradingDay::returns_after`] holds and from
/// which the calendar lasts `n` steps.
pub proof fn law_add_then_subtract(c: TradingDay, n: nat)
    requires
        c.spec_instant().wf(),
        c.returns_after(n),
        c.plus(n) is Some,
    ensures
        c.plus(n)->0.minus(n) == Some(c),
{
    let at = c.spec_instant();
    c.lemma_parts();
    match c.spec_period() {
        Period::Day => {
            lemma_sessions_return(at, n);
            TradingDay::lemma_of(Period::Day, sessions_on(at, n)->0);
        },
        Period::Week => {
            lemma_weeks_return(at, n);
            TradingDay::lemma_of(Period::Week, weeks_on(at, n)->0);
        },
        Period::Minute(m) => {
            if n > 0 {
                lemma_windows_return(at, m as nat, n);
            }
            TradingDay::lemma_of(c.spec_period(), windows_on(at, m as nat, n)->0);
        },
    }
}

/// Bars of one date, merged, are one bar: it has the open of the first, the
/// close of the last, the highest high, the lowest low and the volume of all.
pub proof fn law_one_date_one_bar(bars: Seq<BarData>)
    requires
        bars.len() > 0,
        forall|i: int| 0 <= i < bars.len() ==> (#[trigger] bars[i]).date == bars[0].date,
    ensures
        merge_adjacent(bars) == seq![gathered(bars, bars[0].date)],
    decreases bars.len(),
{
    let head = bars.drop_last();
    if bars.len() == 1 {
        assert(head =~= Seq::<BarData>::empty());
        assert(merge_adjacent(head) =~= Seq::<BarData>::empty());
        assert(total_volume(head) == 0);
        assert(merge_adjacent(bars) =~= seq![gathered(bars, bars[0].date)]);
    } else {
        assert forall|i: int| 0 <= i < head.len() implies (#[trigger] head[i]).date
            == head[0].date by {
            assert(head[i] == bars[i]);
            assert(head[0] == bars[0]);
        }
        law_one_date_one_bar(head);
        let one = gathered(head, bars[0].date);
        assert(head[0] == bars[0]);
        assert(merge_adjacent(head) == seq![one]);
        assert(bars.last().date == bars[0].date);
        assert(seq![one].drop_last().push(one.merged(bars.last())) =~= seq![
            gathered(bars, bars[0].date),
        ]);
    }
}

/// Replacing the dates by week dates keeps the highs and the lows.
pub proof fn lemma_keyed_keeps_extremes(days: Seq<BarData>)
    ensures
        highest(keyed_by_week(days)) == highest(days),
        lowest(keyed_by_week(days)) == lowest(days),
    decreases days.len(),
{
    if days.len() > 0 {
        lemma_keyed_keeps_extremes(days.drop_last());
        assert(keyed_by_week(days).drop_last() =~= keyed_by_week(days.drop_last()));
    }
}

/// The day bars of one week become one week bar: dated on the week's
/// Monday, with the open of the first day, the close of the last, the
/// highest high, the lowest low and the volume of all days.
pub proof fn law_one_week_one_bar(days: Seq<BarData>, monday: Seq<char>)
    requires
        days.len() > 0,
    ensures
        (forall|i: int| 0 <= i < days.len() ==> week_key_of(#[trigger] days[i].date) == Some(monday))
            ==> week_bars_of(days) == seq![gathered(days, monday)],
{
    if forall|i: int| 0 <= i < days.len() ==> week_key_of(#[trigger] days[i].date) == Some(monday) {
        let keyed = keyed_by_week(days);
        assert forall|i: int| 0 <= i < keyed.len() implies (#[trigger] keyed[i]).date
            == keyed[0].date by {
            assert(week_key_of(days[i].date) == Some(monday));
            assert(week_key_of(days[0].date) == Some(monday));
        }
        law_one_date_one_bar(keyed);
        lemma_keyed_keeps_extremes(days);
        lemma_keyed_keeps_volume(days);
        assert(week_key_of(days[0].date) == Some(monday));
        assert(gathered(keyed, keyed[0].date) == gathered(days, monday));
    }
}

} // verus!
