//! From fine bars to coarse ones: day bars gathered into week bars, and the
//! minute bars of a run of sessions put together.
use crate::bar::{Bar, BarData};
use crate::chart::{bars_view, last_bars, Chart};
use crate::error::{DataIntegrityError, ParseFailure};
use crate::instant::Instant;
use crate::period::Period;
use crate::text::text_eq;
use crate::laws::lemma_sessions_back_last;
use crate::trading_day::{
    previous_instant, sessions_back, trading_day_of_text, week_start, TradingDay,
};
use vstd::prelude::*;
use vstd::string::*;

verus! {

/// The volume of all of `bars` together.
pub open spec fn total_volume(bars: Seq<BarData>) -> nat
    decreases bars.len(),
{
    if bars.len() == 0 {
        0
    } else {
        total_volume(bars.drop_last()) + bars.last().volume
    }
}

/// `bars` with each run of bars of one date merged into one bar, by
/// [`BarData::merged`], in the order in which they stand.
pub open spec fn merge_adjacent(bars: Seq<BarData>) -> Seq<BarData>
    decreases bars.len(),
{
    if bars.len() == 0 {
        Seq::empty()
    } else {
        let head = merge_adjacent(bars.drop_last());
        let bar = bars.last();
        if head.len() > 0 && head.last().date == bar.date {
            head.drop_last().push(head.last().merged(bar))
        } else {
            head.push(bar)
        }
    }
}

/// The highest high of `bars`; 0 of none.
pub open spec fn highest(bars: Seq<BarData>) -> nat
    decreases bars.len(),
{
    if bars.len() == 0 {
        0
    } else if bars.len() == 1 {
        bars[0].high
    } else if highest(bars.drop_last()) >= bars.last().high {
        highest(bars.drop_last())
    } else {
        bars.last().high
    }
}

/// The lowest low of `bars`; 0 of none.
pub open spec fn lowest(bars: Seq<BarData>) -> nat
    decreases bars.len(),
{
    if bars.len() == 0 {
        0
    } else if bars.len() == 1 {
        bars[0].low
    } else if lowest(bars.drop_last()) <= bars.last().low {
        lowest(bars.drop_last())
    } else {
        bars.last().low
    }
}

/// The one bar that bars of one period make together: dated `date`, with
/// the open of the first, the close of the last, the highest high, the lowest
/// low and the volume of all of them.
pub open spec fn gathered(bars: Seq<BarData>, date: Seq<char>) -> BarData {
    BarData {
        date,
        open: bars.first().open,
        high: highest(bars),
        low: lowest(bars),
        close: bars.last().close,
        volume: total_volume(bars),
        yesterday: bars.first().yesterday,
    }
}

/// The date of the Monday of the week of the session that `date` names;
/// `None` where `date` names none.
pub open spec fn week_key_of(date: Seq<char>) -> Option<Seq<char>> {
    match trading_day_of_text(date) {
        Some(t) => Some(week_start(t.spec_date()).text()),
        None => None,
    }
}

/// Whether every bar of `bars` has a date that names a session.
pub open spec fn dates_name_sessions(bars: Seq<BarData>) -> bool {
    forall|i: int| 0 <= i < bars.len() ==> week_key_of(#[trigger] bars[i].date) is Some
}

/// `bars` with each date replaced by the date of the Monday of its week.
pub open spec fn keyed_by_week(bars: Seq<BarData>) -> Seq<BarData> {
    Seq::new(
        bars.len(),
        |i: int|
            BarData {
                date: week_key_of(bars[i].date)->0,
                open: bars[i].open,
                high: bars[i].high,
                low: bars[i].low,
                close: bars[i].close,
                volume: bars[i].volume,
                yesterday: bars[i].yesterday,
            },
    )
}

/// The week bars of the day bars `bars`.
pub open spec fn week_bars_of(bars: Seq<BarData>) -> Seq<BarData> {
    merge_adjacent(keyed_by_week(bars))
}

/// The bars of `records` that count, each with the close of the one before
/// it as its yesterday's close; the first has none, which reads 0.
pub open spec fn linked(records: Seq<BarData>) -> Seq<BarData>
    decreases records.len(),
{
    if records.len() == 0 {
        Seq::empty()
    } else {
        let head = linked(records.drop_last());
        let bar = records.last();
        if !bar.is_ok() {
            head
        } else {
            head.push(
                BarData {
                    date: bar.date,
                    open: bar.open,
                    high: bar.high,
                    low: bar.low,
                    close: bar.close,
                    volume: bar.volume,
                    yesterday: if head.len() > 0 {
                        head.last().close
                    } else {
                        0
                    },
                },
            )
        }
    }
}

/// A longer part of a series has no less volume.
pub proof fn lemma_total_volume_prefix(bars: Seq<BarData>, k: int)
    requires
        0 <= k <= bars.len(),
    ensures
        total_volume(bars.take(k)) <= total_volume(bars),
    decreases bars.len() - k,
{
    if k == bars.len() {
        assert(bars.take(k) == bars);
    } else {
        lemma_total_volume_prefix(bars.drop_last(), k);
        assert(bars.drop_last().take(k) == bars.take(k));
    }
}

/// Merging keeps the volume.
pub proof fn lemma_merge_keeps_volume(bars: Seq<BarData>)
    ensures
        total_volume(merge_adjacent(bars)) == total_volume(bars),
    decreases bars.len(),
{
    if bars.len() > 0 {
        lemma_merge_keeps_volume(bars.drop_last());
        let head = merge_adjacent(bars.drop_last());
        let bar = bars.last();
        if head.len() > 0 && head.last().date == bar.date {
            let out = head.drop_last().push(head.last().merged(bar));
            assert(out.drop_last() == head.drop_last());
        } else {
            assert(head.push(bar).drop_last() == head);
        }
    }
}

/// Replacing the dates by week dates keeps the volume.
pub proof fn lemma_keyed_keeps_volume(bars: Seq<BarData>)
    ensures
        total_volume(keyed_by_week(bars)) == total_volume(bars),
    decreases bars.len(),
{
    if bars.len() > 0 {
        lemma_keyed_keeps_volume(bars.drop_last());
        assert(keyed_by_week(bars).drop_last() == keyed_by_week(bars.drop_last()));
    }
}

/// Merges each run of bars of one date into one bar.
pub fn merge_adjacent_bars(bars: Vec<Bar>) -> (r: Vec<Bar>)
    requires
        total_volume(bars_view(bars@)) <= u64::MAX,
    ensures
        bars_view(r@) == merge_adjacent(bars_view(bars@)),
{
    let ghost view = bars_view(bars@);
    let mut acc: Vec<Bar> = Vec::new();
    let mut i: usize = 0;
    assert(view.take(0) =~= Seq::<BarData>::empty());
    assert(bars_view(acc@) =~= Seq::<BarData>::empty());
    while i < bars.len()
        invariant
            i <= bars.len(),
            view == bars_view(bars@),
            total_volume(view) <= u64::MAX,
            bars_view(acc@) == merge_adjacent(view.take(i as int)),
        decreases bars.len() - i,
    {
        let bar: Bar = bars[i].clone();
        let ghost prefix = view.take(i + 1);
        proof {
            assert(prefix.drop_last() =~= view.take(i as int));
            assert(prefix.last() == bar@);
            lemma_total_volume_prefix(view, i + 1);
            lemma_merge_keeps_volume(prefix);
            lemma_merge_keeps_volume(view.take(i as int));
        }
        let n: usize = acc.len();
        if n > 0 && text_eq(acc[n - 1].date.as_str(), bar.date.as_str()) {
            let ghost head = bars_view(acc@);
            assert(head.last() == acc@[n - 1]@);
            let mut last: Bar = acc.pop().unwrap();
            proof {
                // the volume of the merged bar is part of the volume of the merged prefix
                let out = head.drop_last().push(head.last().merged(bar@));
                assert(out == merge_adjacent(prefix));
                assert(total_volume(out) == total_volume(out.drop_last()) + out.last().volume);
            }
            last.merge(bar);
            acc.push(last);
            assert(bars_view(acc@) =~= head.drop_last().push(head.last().merged(bar@)));
        } else {
            let ghost head = bars_view(acc@);
            proof {
                if n > 0 {
                    assert(head.last() == acc@[n - 1]@);
                }
            }
            acc.push(bar);
            assert(bars_view(acc@) =~= head.push(bar@));
        }
        i = i + 1;
    }
    assert(view.take(bars.len() as int) =~= view);
    acc
}

/// The date of the Monday of the week of the session that `date` names.
pub fn week_key(date: &str) -> (r: Result<String, ParseFailure>)
    ensures
        r is Ok <==> week_key_of(date@) is Some,
        r matches Ok(key) ==> week_key_of(date@) == Some(key@),
{
    match TradingDay::parse(date) {
        Ok(day) => {
            let monday: TradingDay = day.week_start_day();
            Ok(monday.to_string())
        },
        Err(e) => Err(e),
    }
}

/// The day bars `days` with each date replaced by the date of the Monday of
/// its week. Fails where a date names no session.
pub fn key_by_week(days: &Vec<Bar>) -> (r: Result<Vec<Bar>, ParseFailure>)
    ensures
        r is Ok <==> dates_name_sessions(bars_view(days@)),
        r matches Ok(keyed) ==> bars_view(keyed@) == keyed_by_week(bars_view(days@)),
{
    let ghost view = bars_view(days@);
    let mut out: Vec<Bar> = Vec::new();
    let mut i: usize = 0;
    while i < days.len()
        invariant
            i <= days.len(),
            view == bars_view(days@),
            out@.len() == i,
            forall|k: int| 0 <= k < i ==> week_key_of(#[trigger] view[k].date) is Some,
            forall|k: int| 0 <= k < i ==> (#[trigger] out@[k])@ == keyed_by_week(view)[k],
        decreases days.len() - i,
    {
        let bar: &Bar = &days[i];
        assert(bar@ == view[i as int]);
        match week_key(bar.date.as_str()) {
            Ok(key) => {
                out.push(
                    Bar {
                        date: key,
                        open: bar.open,
                        high: bar.high,
                        low: bar.low,
                        close: bar.close,
                        volume: bar.volume,
                        yesterday: bar.yesterday,
                    },
                );
            },
            Err(e) => {
                assert(week_key_of(view[i as int].date) is None);
                return Err(e);
            },
        }
        i = i + 1;
    }
    assert(bars_view(out@) =~= keyed_by_week(view));
    Ok(out)
}

/// The week chart of the day bars `days`: each bar goes to the week of its
/// session, the bars of one week that stand together become one bar dated on
/// the week's Monday, and of the week bars the last `limit` are kept, all of
/// them without a limit. Fails where a date names no session.
pub fn week_chart(days: Vec<Bar>, limit: Option<usize>) -> (r: Result<Chart, ParseFailure>)
    requires
        total_volume(bars_view(days@)) <= u64::MAX,
    ensures
        r is Ok <==> dates_name_sessions(bars_view(days@)),
        r matches Ok(chart) ==> chart.spec_period() == Period::Week && chart@ == match limit {
            Some(n) => last_bars(week_bars_of(bars_view(days@)), n as nat),
            None => week_bars_of(bars_view(days@)),
        },
{
    match key_by_week(&days) {
        Ok(keyed) => {
            proof {
                lemma_keyed_keeps_volume(bars_view(days@));
            }
            let weeks: Vec<Bar> = merge_adjacent_bars(keyed);
            let mut chart: Chart = Chart::with_period(weeks, Period::Week);
            match limit {
                Some(n) => {
                    chart.length(n);
                },
                None => {},
            }
            Ok(chart)
        },
        Err(e) => Err(e),
    }
}

/// The bars of `records` that count, each with the close of the one before
/// it as its yesterday's close.
pub fn link_bars(records: Vec<Bar>) -> (r: Vec<Bar>)
    ensures
        bars_view(r@) == linked(bars_view(records@)),
{
    let ghost view = bars_view(records@);
    let mut out: Vec<Bar> = Vec::new();
    let mut yesterday: u64 = 0;
    let mut i: usize = 0;
    assert(view.take(0) =~= Seq::<BarData>::empty());
    assert(bars_view(out@) =~= Seq::<BarData>::empty());
    while i < records.len()
        invariant
            i <= records.len(),
            view == bars_view(records@),
            bars_view(out@) == linked(view.take(i as int)),
            yesterday == if out@.len() > 0 {
                bars_view(out@).last().close
            } else {
                0
            },
        decreases records.len() - i,
    {
        let bar: &Bar = &records[i];
        let ghost prefix = view.take(i + 1);
        let ghost head = bars_view(out@);
        proof {
            assert(prefix.drop_last() =~= view.take(i as int));
            assert(prefix.last() == bar@);
        }
        if bar.is_ok() {
            let kept: Bar = Bar {
                date: bar.date.clone(),
                open: bar.open,
                high: bar.high,
                low: bar.low,
                close: bar.close,
                volume: bar.volume,
                yesterday,
            };
            yesterday = bar.close;
            out.push(kept);
            assert(bars_view(out@) =~= head.push(kept@));
        }
        i = i + 1;
    }
    assert(view.take(records.len() as int) =~= view);
    out
}

/// How many windows of `minutes` minutes one session has: four hours of them.
pub open spec fn windows_per_session(minutes: nat) -> nat {
    (60nat / minutes) * 4
}

/// How many sessions hold `limit` windows of `minutes` minutes, counted from
/// the latest back; without a limit, five sessions.
pub open spec fn sessions_needed(limit: Option<usize>, minutes: nat) -> nat {
    let per = windows_per_session(minutes);
    let want: nat = match limit {
        Some(n) => n as nat,
        None => per * 5,
    };
    if want % per == 0 {
        want / per
    } else {
        want / per + 1
    }
}

/// How many sessions hold `limit` windows of `minutes` minutes.
pub fn session_count(limit: Option<usize>, minutes: usize) -> (r: usize)
    requires
        1 <= minutes <= 60,
    ensures
        r == sessions_needed(limit, minutes as nat),
{
    let windows: usize = 60 / minutes;
    assert(1 <= windows <= 60) by (nonlinear_arith)
        requires
            windows == 60int / (minutes as int),
            1 <= minutes <= 60,
    ;
    let per: usize = windows * 4;
    let want: usize = match limit {
        Some(n) => n,
        None => per * 5,
    };
    assert(want / per <= want / 4) by (nonlinear_arith)
        requires
            per >= 4,
            want >= 0,
    ;
    if want % per == 0 {
        want / per
    } else {
        want / per + 1
    }
}

/// The `count` sessions that end with the session of `end`, the earliest
/// first, as day cursors at the time of day of `end`; fewer where the
/// calendar begins before they are all found.
pub fn sessions_before(end: &TradingDay, count: usize) -> (r: Vec<TradingDay>)
    ensures
        r@.len() <= count,
        forall|k: int|
            0 <= k < r@.len() ==> sessions_back(end.spec_instant(), (r@.len() - 1 - k) as nat)
                == Some((#[trigger] r@[k]).spec_instant()) && r@[k].spec_period() == Period::Day,
        r@.len() < count ==> sessions_back(end.spec_instant(), r@.len()) is None,
{
    let mut back: Vec<Instant> = Vec::new();
    let mut cur: Option<Instant> = if count > 0 {
        Some(end.instant())
    } else {
        None
    };
    let ghost start = end.spec_instant();
    while back.len() < count && cur.is_some()
        invariant
            back@.len() <= count,
            forall|j: int| 0 <= j < back@.len() ==> sessions_back(start, j as nat) == Some(
                #[trigger] back@[j],
            ),
            count > 0 ==> cur == sessions_back(start, back@.len()),
            cur matches Some(t) ==> t.wf(),
        decreases count - back@.len(),
    {
        match cur {
            Some(at) => {
                back.push(at);
                proof {
                    lemma_sessions_back_last(start, back@.len());
                }
                cur = previous_instant(at);
            },
            None => {},
        }
    }
    let mut out: Vec<TradingDay> = Vec::new();
    let n: usize = back.len();
    let mut i: usize = 0;
    while i < n
        invariant
            i <= n,
            n == back@.len(),
            out@.len() == i,
            forall|k: int|
                0 <= k < i ==> (#[trigger] out@[k]).spec_instant() == back@[n - 1 - k] && out@[k].spec_period()
                    == Period::Day,
        decreases n - i,
    {
        let day: TradingDay = TradingDay::day(back[n - 1 - i]);
        proof {
            TradingDay::lemma_of(Period::Day, back@[n - 1 - i]);
        }
        out.push(day);
        i = i + 1;
    }
    out
}

/// Whether the session at place `i` came with bars.
pub open spec fn data_at(days: Seq<Option<Vec<Bar>>>, i: int) -> bool {
    days[i] matches Some(v) && v@.len() > 0
}

/// Whether the session at place `i` is missing.
pub open spec fn missing_at(days: Seq<Option<Vec<Bar>>>, i: int) -> bool {
    days[i] is None
}

/// Whether one of the first `n` sessions came with bars.
pub open spec fn data_within(days: Seq<Option<Vec<Bar>>>, n: int) -> bool {
    exists|i: int| 0 <= i < n && #[trigger] data_at(days, i)
}

/// Whether among the first `n` sessions one is missing after one with bars.
pub open spec fn missing_after_data(days: Seq<Option<Vec<Bar>>>, n: int) -> bool {
    exists|i: int, j: int|
        0 <= i < j < n && #[trigger] data_at(days, i) && #[trigger] missing_at(days, j)
}

/// Whether among the first `n` sessions one is missing between two with bars.
pub open spec fn gap_within(days: Seq<Option<Vec<Bar>>>, n: int) -> bool {
    exists|i: int, j: int, k: int|
        0 <= i < j < k < n && #[trigger] data_at(days, i) && #[trigger] missing_at(days, j)
            && #[trigger] data_at(days, k)
}

/// Whether a session is missing between two that came with bars.
pub open spec fn has_gap(days: Seq<Option<Vec<Bar>>>) -> bool {
    gap_within(days, days.len() as int)
}

/// The bars of all sessions that came, in the order of the sessions.
pub open spec fn joined(days: Seq<Option<Vec<Bar>>>) -> Seq<BarData>
    decreases days.len(),
{
    if days.len() == 0 {
        Seq::empty()
    } else {
        joined(days.drop_last()) + match days.last() {
            Some(v) => bars_view(v@),
            None => Seq::empty(),
        }
    }
}

/// Puts the minute bars of a run of sessions together, in the order of the
/// sessions; a session that is missing has `None`. A session missing before
/// the first or after the last one with bars is left out; one missing between
/// two with bars fails the run.
pub fn join_sessions(days: &Vec<Option<Vec<Bar>>>) -> (r: Result<Vec<Bar>, DataIntegrityError>)
    ensures
        r is Err <==> has_gap(days@),
        r matches Ok(bars) ==> bars_view(bars@) == joined(days@),
{
    let mut out: Vec<Bar> = Vec::new();
    let mut seen: bool = false;
    let mut gap: bool = false;
    let mut n: usize = 0;
    assert(days@.take(0) =~= Seq::<Option<Vec<Bar>>>::empty());
    assert(bars_view(out@) =~= Seq::<BarData>::empty());
    while n < days.len()
        invariant
            n <= days.len(),
            seen == data_within(days@, n as int),
            gap == missing_after_data(days@, n as int),
            !gap_within(days@, n as int),
            bars_view(out@) == joined(days@.take(n as int)),
        decreases days.len() - n,
    {
        let ghost all = days@;
        let ghost prefix = all.take(n + 1);
        proof {
            assert(prefix.drop_last() =~= all.take(n as int));
            assert(prefix.last() == all[n as int]);
        }
        match &days[n] {
            None => {
                proof {
                    assert(missing_at(all, n as int));
                    assert(!data_at(all, n as int));
                    lemma_step_missing(all, n as int);
                    assert(bars_view(out@) =~= joined(prefix));
                }
                if seen {
                    gap = true;
                }
            },
            Some(bars) => {
                if bars.len() > 0 {
                    proof {
                        assert(data_at(all, n as int));
                        lemma_step_data(all, n as int);
                    }
                    if gap {
                        proof {
                            lemma_gap_grows(all, n + 1, all.len() as int);
                        }
                        return Err(DataIntegrityError);
                    }
                    seen = true;
                    let ghost before = bars_view(out@);
                    let mut m: usize = 0;
                    while m < bars.len()
                        invariant
                            m <= bars.len(),
                            bars_view(out@) == before + bars_view(bars@).take(m as int),
                        decreases bars.len() - m,
                    {
                        let bar: Bar = bars[m].clone();
                        let ghost head = bars_view(out@);
                        out.push(bar);
                        assert(bars_view(out@) =~= head.push(bar@));
                        assert(bars_view(bars@).take(m + 1) =~= bars_view(bars@).take(m as int).push(
                            bar@,
                        ));
                        assert(bars_view(out@) =~= before + bars_view(bars@).take(m + 1));
                        m = m + 1;
                    }
                    assert(bars_view(bars@).take(bars.len() as int) =~= bars_view(bars@));
                } else {
                    proof {
                        assert(!data_at(all, n as int));
                        assert(!missing_at(all, n as int));
                        lemma_step_empty(all, n as int);
                        assert(bars_view(bars@) =~= Seq::<BarData>::empty());
                        assert(bars_view(out@) =~= joined(prefix));
                    }
                }
            },
        }
        n = n + 1;
    }
    assert(days@.take(days.len() as int) =~= days@);
    Ok(out)
}

/// A gap among the first sessions is a gap among more of them.
pub proof fn lemma_gap_grows(days: Seq<Option<Vec<Bar>>>, n: int, m: int)
    requires
        n <= m,
        gap_within(days, n),
    ensures
        gap_within(days, m),
{
    let (i, j, k) = choose|i: int, j: int, k: int|
        0 <= i < j < k < n && #[trigger] data_at(days, i) && #[trigger] missing_at(days, j)
            && #[trigger] data_at(days, k);
    assert(0 <= i < j < k < m && data_at(days, i) && missing_at(days, j) && data_at(days, k));
}

/// What a missing session at place `n` changes.
pub proof fn lemma_step_missing(days: Seq<Option<Vec<Bar>>>, n: int)
    requires
        0 <= n < days.len(),
        missing_at(days, n),
        !gap_within(days, n),
    ensures
        data_within(days, n + 1) == data_within(days, n),
        missing_after_data(days, n + 1) == (missing_after_data(days, n) || data_within(days, n)),
        !gap_within(days, n + 1),
{
    if data_within(days, n + 1) {
        let i = choose|i: int| 0 <= i < n + 1 && #[trigger] data_at(days, i);
        assert(0 <= i < n && data_at(days, i));
    }
    if data_within(days, n) {
        let i = choose|i: int| 0 <= i < n && #[trigger] data_at(days, i);
        assert(0 <= i < n + 1 && data_at(days, i));
        assert(0 <= i < n < n + 1 && data_at(days, i) && missing_at(days, n));
    }
    if missing_after_data(days, n) {
        let (i, j) = choose|i: int, j: int|
            0 <= i < j < n && #[trigger] data_at(days, i) && #[trigger] missing_at(days, j);
        assert(0 <= i < j < n + 1 && data_at(days, i) && missing_at(days, j));
    }
    if missing_after_data(days, n + 1) {
        let (i, j) = choose|i: int, j: int|
            0 <= i < j < n + 1 && #[trigger] data_at(days, i) && #[trigger] missing_at(days, j);
        if j < n {
            assert(0 <= i < j < n && data_at(days, i) && missing_at(days, j));
        } else {
            assert(0 <= i < n && data_at(days, i));
        }
    }
    if gap_within(days, n + 1) {
        let (i, j, k) = choose|i: int, j: int, k: int|
            0 <= i < j < k < n + 1 && #[trigger] data_at(days, i) && #[trigger] missing_at(days, j)
                && #[trigger] data_at(days, k);
        assert(0 <= i < j < k < n && data_at(days, i) && missing_at(days, j) && data_at(days, k));
    }
}

/// What a session with bars at place `n` changes.
pub proof fn lemma_step_data(days: Seq<Option<Vec<Bar>>>, n: int)
    requires
        0 <= n < days.len(),
        data_at(days, n),
        !gap_within(days, n),
    ensures
        data_within(days, n + 1),
        missing_after_data(days, n + 1) == missing_after_data(days, n),
        gap_within(days, n + 1) == missing_after_data(days, n),
{
    assert(0 <= n < n + 1 && data_at(days, n));
    if missing_after_data(days, n) {
        let (i, j) = choose|i: int, j: int|
            0 <= i < j < n && #[trigger] data_at(days, i) && #[trigger] missing_at(days, j);
        assert(0 <= i < j < n + 1 && data_at(days, i) && missing_at(days, j));
        assert(0 <= i < j < n < n + 1 && data_at(days, i) && missing_at(days, j) && data_at(
            days,
            n,
        ));
    }
    if missing_after_data(days, n + 1) {
        let (i, j) = choose|i: int, j: int|
            0 <= i < j < n + 1 && #[trigger] data_at(days, i) && #[trigger] missing_at(days, j);
        assert(0 <= i < j < n && data_at(days, i) && missing_at(days, j));
    }
    if gap_within(days, n + 1) {
        let (i, j, k) = choose|i: int, j: int, k: int|
            0 <= i < j < k < n + 1 && #[trigger] data_at(days, i) && #[trigger] missing_at(days, j)
                && #[trigger] data_at(days, k);
        if k < n {
            assert(0 <= i < j < k < n && data_at(days, i) && missing_at(days, j) && data_at(
                days,
                k,
            ));
        } else {
            assert(0 <= i < j < n && data_at(days, i) && missing_at(days, j));
        }
    }
}

/// A session that came without bars at place `n` changes nothing.
pub proof fn lemma_step_empty(days: Seq<Option<Vec<Bar>>>, n: int)
    requires
        0 <= n < days.len(),
        !data_at(days, n),
        !missing_at(days, n),
        !gap_within(days, n),
    ensures
        data_within(days, n + 1) == data_within(days, n),
        missing_after_data(days, n + 1) == missing_after_data(days, n),
        !gap_within(days, n + 1),
{
    if data_within(days, n + 1) {
        let i = choose|i: int| 0 <= i < n + 1 && #[trigger] data_at(days, i);
        assert(0 <= i < n && data_at(days, i));
    }
    if data_within(days, n) {
        let i = choose|i: int| 0 <= i < n && #[trigger] data_at(days, i);
        assert(0 <= i < n + 1 && data_at(days, i));
    }
    if missing_after_data(days, n) {
        let (i, j) = choose|i: int, j: int|
            0 <= i < j < n && #[trigger] data_at(days, i) && #[trigger] missing_at(days, j);
        assert(0 <= i < j < n + 1 && data_at(days, i) && missing_at(days, j));
    }
    if missing_after_data(days, n + 1) {
        let (i, j) = choose|i: int, j: int|
            0 <= i < j < n + 1 && #[trigger] data_at(days, i) && #[trigger] missing_at(days, j);
        assert(0 <= i < j < n && data_at(days, i) && missing_at(days, j));
    }
    if gap_within(days, n + 1) {
        let (i, j, k) = choose|i: int, j: int, k: int|
            0 <= i < j < k < n + 1 && #[trigger] data_at(days, i) && #[trigger] missing_at(days, j)
                && #[trigger] data_at(days, k);
        assert(0 <= i < j < k < n && data_at(days, i) && missing_at(days, j) && data_at(days, k));
    }
}

} // verus!
