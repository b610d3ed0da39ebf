//! What a caller asks of a source of charts.
use crate::calendar::Date;
use crate::error::ParseFailure;
use crate::period::Period;
use crate::stock::GetSymbolCode;
use crate::trading_day::{trading_day_of_text, week_end, TradingDay};
use vstd::prelude::*;
use vstd::string::*;

verus! {

/// A request for the chart of one symbol: the period of its bars, the date
/// of the last bar wanted, and how many bars at most.
#[derive(Debug, Clone)]
pub struct ChartParamter {
    pub period: Period,
    pub symbol: String,
    pub end: Option<String>,
    pub limit: Option<usize>,
}

/// The date of the Sunday of the week of the session that `date` names;
/// `None` where `date` names none or the calendar ends before that Sunday.
pub open spec fn week_end_of(date: Seq<char>) -> Option<Seq<char>> {
    match trading_day_of_text(date) {
        Some(t) => if t.spec_date().num() + 6 - t.spec_date().weekday() <= Date::last_num() {
            Some(week_end(t.spec_date()).text())
        } else {
            None
        },
        None => None,
    }
}

/// The date of the Sunday of the week of the session that `date` names.
pub fn week_end_text(date: &str) -> (r: Result<String, ParseFailure>)
    ensures
        r is Ok <==> week_end_of(date@) is Some,
        r matches Ok(text) ==> week_end_of(date@) == Some(text@),
{
    match TradingDay::parse(date) {
        Ok(day) => {
            let at: Date = day.instant().date();
            if at.day_count() + 6 - at.weekday_index() > 3652059 {
                return Err(ParseFailure);
            }
            let sunday: TradingDay = day.week_end_day();
            Ok(sunday.to_string())
        },
        Err(e) => Err(e),
    }
}

impl ChartParamter {
    /// The request for all bars of `period` of `symbol`.
    pub fn new<S: GetSymbolCode>(symbol: S, period: Period) -> (r: ChartParamter)
        ensures
            r.period == period,
            r.symbol@ == symbol.symbol_text(),
            r.end is None,
            r.limit is None,
    {
        ChartParamter { period, symbol: String::from_str(symbol.symbol()), limit: None, end: None }
    }

    /// The request for all day bars of `symbol`.
    pub fn day<S: GetSymbolCode>(symbol: S) -> (r: ChartParamter)
        ensures
            r.period == Period::Day,
            r.symbol@ == symbol.symbol_text(),
            r.end is None,
            r.limit is None,
    {
        ChartParamter::new(symbol, Period::Day)
    }

    /// The request for `limit` bars at most.
    pub fn limit(self, limit: usize) -> (r: ChartParamter)
        ensures
            r.limit == Some(limit),
            r.period == self.period,
            r.symbol == self.symbol,
            r.end == self.end,
    {
        ChartParamter { period: self.period, symbol: self.symbol, end: self.end, limit: Some(limit) }
    }

    /// The request for bars up to `end`.
    pub fn end(self, end: String) -> (r: ChartParamter)
        ensures
            r.end == Some(end),
            r.period == self.period,
            r.symbol == self.symbol,
            r.limit == self.limit,
    {
        ChartParamter { period: self.period, symbol: self.symbol, end: Some(end), limit: self.limit }
    }

    /// The request for the day bars that a week chart is made of: up to the
    /// Sunday of the week of `end`, where there is an end, and without a
    /// limit, which is returned beside it to be applied to the week bars.
    pub fn week_days(self) -> (r: Result<(ChartParamter, Option<usize>), ParseFailure>)
        ensures
            r is Ok <==> (self.end matches Some(end) ==> week_end_of(end@) is Some),
            r matches Ok(pair) ==> pair.1 == self.limit && pair.0.limit is None && pair.0.period
                == self.period && pair.0.symbol == self.symbol && match self.end {
                Some(end) => pair.0.end matches Some(text) && week_end_of(end@) == Some(text@),
                None => pair.0.end is None,
            },
    {
        let end: Option<String> = match self.end {
            Some(end) => match week_end_text(end.as_str()) {
                Ok(text) => Some(text),
                Err(e) => {
                    return Err(e);
                },
            },
            None => None,
        };
        Ok((ChartParamter { period: self.period, symbol: self.symbol, end, limit: None }, self.limit))
    }
}

} // verus!
