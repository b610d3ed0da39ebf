//! A series of bars in the order of their dates, and the ways to cut it:
//! up to a date, from a date on, down to its last bars.
use crate::bar::{Bar, BarData};
use crate::period::Period;
use crate::text::{
    lemma_lex_le_antisym, lemma_lex_le_total, lemma_lex_le_trans, lex_le, lex_lt, text_eq, text_le,
};
use vstd::prelude::*;
use vstd::string::*;

verus! {

/// What the bars of `bars` hold, one after the other.
pub open spec fn bars_view(bars: Seq<Bar>) -> Seq<BarData> {
    bars.map_values(|b: Bar| b@)
}

/// Whether the dates of `bars` strictly ascend, so that none occurs twice.
pub open spec fn dates_ascend(bars: Seq<BarData>) -> bool {
    forall|i: int, j: int| 0 <= i < j < bars.len() ==> lex_lt(bars[i].date, bars[j].date)
}

/// Whether `bars` holds a bar of `date`.
pub open spec fn has_date(bars: Seq<BarData>, date: Seq<char>) -> bool {
    exists|i: int| 0 <= i < bars.len() && bars[i].date == date
}

/// The place of the bar of `date` in `bars`, where there is one.
pub open spec fn index_of_date(bars: Seq<BarData>, date: Seq<char>) -> int {
    choose|i: int| 0 <= i < bars.len() && bars[i].date == date
}

/// The last `n` bars of `bars`, or all of them where there are no more.
pub open spec fn last_bars(bars: Seq<BarData>, n: nat) -> Seq<BarData> {
    if bars.len() > n {
        bars.skip(bars.len() - n)
    } else {
        bars
    }
}

/// In a series of ascending dates a date has one place at most.
pub proof fn lemma_one_place(bars: Seq<BarData>, i: int, j: int)
    requires
        dates_ascend(bars),
        0 <= i < bars.len(),
        0 <= j < bars.len(),
        bars[i].date == bars[j].date,
    ensures
        i == j,
{
    if i < j {
        assert(lex_lt(bars[i].date, bars[j].date));
    } else if j < i {
        assert(lex_lt(bars[j].date, bars[i].date));
    }
}

/// A part of a series of ascending dates has ascending dates.
pub proof fn lemma_part_ascends(bars: Seq<BarData>, from: int, to: int)
    requires
        dates_ascend(bars),
        0 <= from <= to <= bars.len(),
    ensures
        dates_ascend(bars.subrange(from, to)),
{
    let part = bars.subrange(from, to);
    assert forall|i: int, j: int| 0 <= i < j < part.len() implies lex_lt(
        part[i].date,
        part[j].date,
    ) by {
        assert(lex_lt(bars[from + i].date, bars[from + j].date));
    }
}

/// A series of ascending dates stays one with a bar of a later date behind it.
pub proof fn lemma_push_ascends(bars: Seq<BarData>, bar: BarData)
    requires
        dates_ascend(bars),
        bars.len() == 0 || lex_lt(bars.last().date, bar.date),
    ensures
        dates_ascend(bars.push(bar)),
{
    let out = bars.push(bar);
    assert forall|i: int, j: int| 0 <= i < j < out.len() implies lex_lt(
        out[i].date,
        out[j].date,
    ) by {
        if j < bars.len() {
            assert(lex_lt(bars[i].date, bars[j].date));
        } else if i < bars.len() - 1 {
            assert(lex_lt(bars[i].date, bars[bars.len() - 1].date));
            lemma_lex_le_trans(bars[i].date, bars.last().date, bar.date);
            if bars[i].date == bar.date {
                lemma_lex_le_antisym(bars.last().date, bar.date);
            }
        }
    }
}

/// Whether the dates of `bars` strictly ascend.
pub fn ascending(bars: &Vec<Bar>) -> (r: bool)
    ensures
        r == dates_ascend(bars_view(bars@)),
{
    let ghost view = bars_view(bars@);
    if bars.len() < 2 {
        return true;
    }
    let mut i: usize = 1;
    while i < bars.len()
        invariant
            1 <= i <= bars.len(),
            view == bars_view(bars@),
            forall|k: int| 0 < k < i ==> lex_lt(view[k - 1].date, #[trigger] view[k].date),
        decreases bars.len() - i,
    {
        let a: &str = bars[i - 1].date.as_str();
        let b: &str = bars[i].date.as_str();
        if !text_le(a, b) || text_eq(a, b) {
            assert(!lex_lt(view[i - 1].date, view[i as int].date));
            return false;
        }
        i = i + 1;
    }
    proof {
        lemma_steps_ascend(view);
    }
    true
}

/// A series in which each date comes after the one before has ascending dates.
pub proof fn lemma_steps_ascend(bars: Seq<BarData>)
    requires
        forall|k: int| 0 < k < bars.len() ==> lex_lt(bars[k - 1].date, #[trigger] bars[k].date),
    ensures
        dates_ascend(bars),
{
    assert forall|i: int, j: int| 0 <= i < j < bars.len() implies lex_lt(
        bars[i].date,
        bars[j].date,
    ) by {
        lemma_steps_reach(bars, i, j);
    }
}

/// In a series in which each date comes after the one before, a later date
/// comes after an earlier one.
pub proof fn lemma_steps_reach(bars: Seq<BarData>, i: int, j: int)
    requires
        forall|k: int| 0 < k < bars.len() ==> lex_lt(bars[k - 1].date, #[trigger] bars[k].date),
        0 <= i < j < bars.len(),
    ensures
        lex_lt(bars[i].date, bars[j].date),
    decreases j - i,
{
    assert(lex_lt(bars[j - 1].date, bars[j].date));
    if i < j - 1 {
        lemma_steps_reach(bars, i, j - 1);
        lemma_lex_le_trans(bars[i].date, bars[j - 1].date, bars[j].date);
        if bars[i].date == bars[j].date {
            lemma_lex_le_antisym(bars[j - 1].date, bars[j].date);
        }
    }
}

/// A series of bars of one period, kept in the order of their dates.
#[derive(Debug, Clone)]
pub struct Chart {
    items: Vec<Bar>,
    period: Period,
}

impl View for Chart {
    type V = Seq<BarData>;

    closed spec fn view(&self) -> Seq<BarData> {
        bars_view(self.items@)
    }
}

impl Default for Chart {
    fn default() -> (r: Chart)
        ensures
            r@ == Seq::<BarData>::empty(),
            r.spec_period() == Period::Day,
            r.wf(),
    {
        let r = Chart { items: Vec::new(), period: Period::Day };
        assert(r@ =~= Seq::<BarData>::empty());
        r
    }
}

impl Chart {
    pub closed spec fn spec_period(self) -> Period {
        self.period
    }

    /// The bars themselves.
    pub closed spec fn spec_items(self) -> Seq<Bar> {
        self.items@
    }

    /// A series is well formed where its dates strictly ascend.
    pub open spec fn wf(self) -> bool {
        dates_ascend(self@)
    }

    /// The series of day bars `items`.
    pub fn new(items: Vec<Bar>) -> (r: Chart)
        ensures
            r@ == bars_view(items@),
            r.wf() == dates_ascend(bars_view(items@)),
            r.spec_items() == items@,
            r.spec_period() == Period::Day,
    {
        Chart { items, period: Period::Day }
    }

    /// The series of bars `items` of `period`.
    pub fn with_period(items: Vec<Bar>, period: Period) -> (r: Chart)
        ensures
            r@ == bars_view(items@),
            r.wf() == dates_ascend(bars_view(items@)),
            r.spec_items() == items@,
            r.spec_period() == period,
    {
        Chart { items, period }
    }

    pub fn period(&self) -> (r: &Period)
        ensures
            *r == self.spec_period(),
    {
        &self.period
    }

    /// The bars of the series.
    pub fn items(&self) -> (r: &Vec<Bar>)
        ensures
            r@ == self.spec_items(),
            bars_view(r@) == self@,
    {
        &self.items
    }

    /// The bars of the series, which ends with this.
    pub fn value(self) -> (r: Vec<Bar>)
        ensures
            r@ == self.spec_items(),
            bars_view(r@) == self@,
    {
        self.items
    }

    /// How many bars the series has.
    pub fn len(&self) -> (r: usize)
        ensures
            r == self@.len(),
    {
        self.items.len()
    }

    /// Whether the series has no bar.
    pub fn is_empty(&self) -> (r: bool)
        ensures
            r == (self@.len() == 0),
    {
        self.items.len() == 0
    }

    /// The bar at place `index`, if the series is that long.
    pub fn get(&self, index: usize) -> (r: Option<&Bar>)
        ensures
            r is Some <==> index < self@.len(),
            r matches Some(b) ==> b@ == self@[index as int] && *b == self.spec_items()[index as int],
    {
        if index < self.items.len() {
            Some(&self.items[index])
        } else {
            None
        }
    }

    /// Whether the dates of the series strictly ascend.
    pub fn is_sorted(&self) -> (r: bool)
        ensures
            r == self.wf(),
    {
        ascending(&self.items)
    }

    /// Appends `bar` to the series. The series stays well formed where the
    /// date of `bar` comes after the date of its last bar.
    pub fn push(&mut self, bar: Bar)
        ensures
            final(self)@ == old(self)@.push(bar@),
            final(self).spec_period() == old(self).spec_period(),
            old(self).wf() && (old(self)@.len() == 0 || lex_lt(old(self)@.last().date, bar@.date))
                ==> final(self).wf(),
    {
        self.items.push(bar);
        assert(self@ =~= old(self)@.push(bar@));
        proof {
            if old(self).wf() && (old(self)@.len() == 0 || lex_lt(
                old(self)@.last().date,
                bar@.date,
            )) {
                lemma_push_ascends(old(self)@, bar@);
            }
        }
    }

    /// Puts `bar` in the place of the last bar of the series, or makes it the
    /// only bar of an empty one. The series stays well formed where the date
    /// of `bar` comes after the date of the bar before the last.
    pub fn replace_last(&mut self, bar: Bar)
        ensures
            final(self)@ == if old(self)@.len() > 0 {
                old(self)@.drop_last().push(bar@)
            } else {
                seq![bar@]
            },
            final(self).spec_period() == old(self).spec_period(),
            old(self).wf() && (old(self)@.len() <= 1 || lex_lt(
                old(self)@[old(self)@.len() - 2].date,
                bar@.date,
            )) ==> final(self).wf(),
    {
        proof {
            if old(self).wf() && old(self)@.len() > 0 && (old(self)@.len() <= 1 || lex_lt(
                old(self)@[old(self)@.len() - 2].date,
                bar@.date,
            )) {
                lemma_part_ascends(old(self)@, 0, old(self)@.len() - 1);
                assert(old(self)@.drop_last() =~= old(self)@.subrange(0, old(self)@.len() - 1));
                lemma_push_ascends(old(self)@.drop_last(), bar@);
            }
            if old(self)@.len() == 0 {
                lemma_push_ascends(old(self)@, bar@);
                assert(old(self)@.push(bar@) =~= seq![bar@]);
            }
        }
        if self.items.len() > 0 {
            let index: usize = self.items.len() - 1;
            self.items.remove(index);
        }
        self.items.push(bar);
        assert(self@ =~= if old(self)@.len() > 0 {
            old(self)@.drop_last().push(bar@)
        } else {
            seq![bar@]
        });
    }

    /// The place of the bar of `date`, found by halving the series.
    pub fn position(&self, date: &str) -> (r: Option<usize>)
        requires
            self.wf(),
        ensures
            r is Some <==> has_date(self@, date@),
            r matches Some(i) ==> i < self@.len() && self@[i as int].date == date@ && i
                == index_of_date(self@, date@),
    {
        let ghost bars = self@;
        let mut low: usize = 0;
        let mut high: usize = self.items.len();
        while low < high
            invariant
                bars == self@,
                bars == bars_view(self.items@),
                dates_ascend(bars),
                low <= high <= bars.len(),
                forall|k: int| 0 <= k < low ==> lex_lt(#[trigger] bars[k].date, date@),
                forall|k: int| high <= k < bars.len() ==> lex_lt(date@, #[trigger] bars[k].date),
            decreases high - low,
        {
            let mid: usize = low + (high - low) / 2;
            let at: &str = self.items[mid].date.as_str();
            assert(at@ == bars[mid as int].date);
            if text_eq(at, date) {
                proof {
                    let found = index_of_date(bars, date@);
                    lemma_one_place(bars, found, mid as int);
                }
                return Some(mid);
            }
            if text_le(at, date) {
                assert forall|k: int| 0 <= k < mid + 1 implies lex_lt(
                    #[trigger] bars[k].date,
                    date@,
                ) by {
                    if k < mid {
                        assert(lex_lt(bars[k].date, bars[mid as int].date));
                        lemma_lex_le_trans(bars[k].date, at@, date@);
                        if bars[k].date == date@ {
                            lemma_lex_le_antisym(bars[k].date, at@);
                        }
                    }
                }
                low = mid + 1;
            } else {
                proof {
                    lemma_lex_le_total(at@, date@);
                }
                assert forall|k: int| mid <= k < bars.len() implies lex_lt(
                    date@,
                    #[trigger] bars[k].date,
                ) by {
                    if k > mid {
                        assert(lex_lt(bars[mid as int].date, bars[k].date));
                        lemma_lex_le_trans(date@, at@, bars[k].date);
                        if bars[k].date == date@ {
                            lemma_lex_le_antisym(bars[k].date, at@);
                        }
                    }
                }
                high = mid;
            }
        }
        None
    }

    /// The bar of `date`, if the series has one.
    pub fn search(&self, date: &str) -> (r: Option<&Bar>)
        requires
            self.wf(),
        ensures
            r is Some <==> has_date(self@, date@),
            r matches Some(b) ==> b@ == self@[index_of_date(self@, date@)] && b@.date == date@,
    {
        match self.position(date) {
            Some(index) => Some(&self.items[index]),
            None => None,
        }
    }

    /// Cuts the series at `end_day`: where it has a bar of that date, the bar
    /// and all after it leave the series and the bar is returned; where it
    /// has none, nothing changes.
    pub fn limit(&mut self, end_day: &str) -> (r: Option<Bar>)
        requires
            old(self).wf(),
        ensures
            final(self).spec_period() == old(self).spec_period(),
            final(self).wf(),
            r is Some <==> has_date(old(self)@, end_day@),
            r is None ==> final(self)@ == old(self)@ && final(self).spec_items() == old(
                self,
            ).spec_items(),
            r matches Some(b) ==> b@ == old(self)@[index_of_date(old(self)@, end_day@)]
                && final(self)@ == old(self)@.take(index_of_date(old(self)@, end_day@)),
    {
        match self.position(end_day) {
            Some(index) => {
                let mut rest: Vec<Bar> = self.items.split_off(index);
                let bar: Bar = rest.remove(0);
                assert(self@ =~= old(self)@.take(index as int));
                proof {
                    lemma_part_ascends(old(self)@, 0, index as int);
                }
                Some(bar)
            },
            None => None,
        }
    }

    /// Starts the series at `start_day`: where it has a bar of that date, all
    /// bars before it leave the series; where it has none, nothing changes.
    pub fn offset(&mut self, start_day: &str)
        requires
            old(self).wf(),
        ensures
            final(self).spec_period() == old(self).spec_period(),
            final(self).wf(),
            final(self)@ == if has_date(old(self)@, start_day@) {
                old(self)@.skip(index_of_date(old(self)@, start_day@))
            } else {
                old(self)@
            },
    {
        match self.position(start_day) {
            Some(index) => {
                let rest: Vec<Bar> = self.items.split_off(index);
                self.items = rest;
                assert(self@ =~= old(self)@.skip(index as int));
                proof {
                    lemma_part_ascends(old(self)@, index as int, old(self)@.len() as int);
                }
            },
            None => {},
        }
    }

    /// Keeps the last `length` bars of the series, or all of them where
    /// there are no more.
    pub fn length(&mut self, length: usize)
        ensures
            final(self).spec_period() == old(self).spec_period(),
            final(self)@ == last_bars(old(self)@, length as nat),
            old(self).wf() ==> final(self).wf(),
    {
        if self.items.len() > length {
            let from: usize = self.items.len() - length;
            let rest: Vec<Bar> = self.items.split_off(from);
            self.items = rest;
            assert(self@ =~= old(self)@.skip(from as int));
            proof {
                if old(self).wf() {
                    lemma_part_ascends(old(self)@, from as int, old(self)@.len() as int);
                }
            }
        }
    }
}

} // verus!
