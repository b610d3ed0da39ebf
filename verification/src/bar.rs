//! One bar of a price series: what was traded in one period.
use vstd::prelude::*;
use vstd::string::*;

verus! {

/// What a bar holds, as plain values. Prices and volume are whole numbers of
/// the smallest unit the series is kept in.
pub struct BarData {
    pub date: Seq<char>,
    pub open: nat,
    pub high: nat,
    pub low: nat,
    pub close: nat,
    pub volume: nat,
    pub yesterday: nat,
}

/// A bar: the session it belongs to, its open, high, low and close, the
/// volume traded, and the close of the bar before it.
#[derive(Debug)]
pub struct Bar {
    pub date: String,
    pub open: u64,
    pub high: u64,
    pub low: u64,
    pub close: u64,
    pub volume: u64,
    pub yesterday: u64,
}

impl View for Bar {
    type V = BarData;

    open spec fn view(&self) -> BarData {
        BarData {
            date: self.date@,
            open: self.open as nat,
            high: self.high as nat,
            low: self.low as nat,
            close: self.close as nat,
            volume: self.volume as nat,
            yesterday: self.yesterday as nat,
        }
    }
}

impl BarData {
    /// The bar with nothing traded on `date`.
    pub open spec fn empty(date: Seq<char>) -> BarData {
        BarData { date, open: 0, high: 0, low: 0, close: 0, volume: 0, yesterday: 0 }
    }

    /// This bar with `later` merged into it: the volumes added, the higher
    /// high, the lower low, the close of `later`; date, open and the close of
    /// the bar before stay.
    pub open spec fn merged(self, later: BarData) -> BarData {
        BarData {
            date: self.date,
            open: self.open,
            high: if self.high >= later.high {
                self.high
            } else {
                later.high
            },
            low: if self.low <= later.low {
                self.low
            } else {
                later.low
            },
            close: later.close,
            volume: self.volume + later.volume,
            yesterday: self.yesterday,
        }
    }

    /// A bar counts only if open, high, low and close are all above zero.
    pub open spec fn is_ok(self) -> bool {
        self.open > 0 && self.high > 0 && self.low > 0 && self.close > 0
    }
}

impl Clone for Bar {
    fn clone(&self) -> (r: Bar)
        ensures
            r@ == self@,
    {
        Bar {
            date: self.date.clone(),
            open: self.open,
            high: self.high,
            low: self.low,
            close: self.close,
            volume: self.volume,
            yesterday: self.yesterday,
        }
    }
}

impl PartialEq for Bar {
    /// Bars are the same bar where their dates are the same.
    fn eq(&self, other: &Bar) -> (r: bool) {
        self.date == other.date
    }
}

impl Eq for Bar {

}

impl vstd::std_specs::cmp::PartialEqSpecImpl for Bar {
    open spec fn obeys_eq_spec() -> bool {
        true
    }

    open spec fn eq_spec(&self, other: &Bar) -> bool {
        self.date@ == other.date@
    }
}

impl Default for Bar {
    fn default() -> (r: Bar)
        ensures
            r@ == BarData::empty(Seq::empty()),
    {
        Bar { date: String::new(), open: 0, high: 0, low: 0, close: 0, volume: 0, yesterday: 0 }
    }
}

impl Bar {
    /// The bar with nothing traded on `date`.
    pub fn new(date: &str) -> (r: Bar)
        ensures
            r@ == BarData::empty(date@),
    {
        Bar {
            date: String::from_str(date),
            open: 0,
            high: 0,
            low: 0,
            close: 0,
            volume: 0,
            yesterday: 0,
        }
    }

    /// Whether open, high, low and close are all above zero.
    pub fn is_ok(&self) -> (r: bool)
        ensures
            r == self@.is_ok(),
    {
        self.open > 0 && self.high > 0 && self.low > 0 && self.close > 0
    }

    /// Whether the bar closed at or above its open.
    pub fn red(&self) -> (r: bool)
        ensures
            r == (self.close >= self.open),
    {
        self.close >= self.open
    }

    /// Whether the bar closed below its open.
    pub fn green(&self) -> (r: bool)
        ensures
            r == (self.close < self.open),
    {
        self.close < self.open
    }

    /// Merges `bar`, a later bar of the same period, into this one.
    pub fn merge(&mut self, bar: Bar)
        requires
            old(self).volume + bar.volume <= u64::MAX,
        ensures
            final(self)@ == old(self)@.merged(bar@),
    {
        self.volume = self.volume + bar.volume;
        if bar.high > self.high {
            self.high = bar.high;
        }
        if bar.low < self.low {
            self.low = bar.low;
        }
        self.close = bar.close;
    }
}

} // verus!
