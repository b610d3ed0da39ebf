//! The exchange's calendar: the table of holidays, the weekend rule, and the
//! move from any day to the nearest day on which the market trades.
use crate::calendar::{date_text, Date};
use crate::error::ParseFailure;
use crate::instant::Instant;
use crate::parsing::{parse_date, parsed_date};
use crate::text::{
    digit_char, four_digits, lemma_lex_le_refl, lemma_lex_le_skip, lex_le, push_char,
    push_four_digits, push_two_digits, text_le, two_digits,
};
use std::cmp::Ordering;
use vstd::prelude::*;
use vstd::string::*;

verus! {

/// Pattern of a date.
pub const FORMAT: &'static str = "%Y-%m-%d";

/// Pattern of a month.
pub const MONTH_FORMAT: &'static str = "%Y-%m";

/// Pattern of a date with its time of day.
pub const FULL_FORMAT: &'static str = "%Y-%m-%d %H:%M:%S";

/// A run of days on which the market is closed, both ends included. The ends
/// are date keys, `yyyymmdd`.
#[derive(Clone, Copy, Debug, PartialEq, Eq, Structural)]
pub struct Holiday {
    pub start: u32,
    pub end: u32,
}

/// The text `YYYY-MM-DD` of a date key.
pub open spec fn key_text(key: int) -> Seq<char> {
    date_text(key / 10000, key / 100 % 100, key % 100)
}

/// The part of a date string that names the day: its first ten characters.
pub open spec fn date_part(text: Seq<char>) -> Seq<char> {
    if text.len() > 10 {
        text.take(10)
    } else {
        text
    }
}

/// The holidays of 2016, with the days around them on which the market stays closed.
pub open spec fn holidays_2016() -> Seq<Holiday> {
    seq![
        Holiday { start: 2016_01_01, end: 2016_01_03 },
        Holiday { start: 2016_02_07, end: 2016_02_13 },
        Holiday { start: 2016_04_02, end: 2016_04_04 },
        Holiday { start: 2016_04_29, end: 2016_05_01 },
        Holiday { start: 2016_06_09, end: 2016_06_11 },
        Holiday { start: 2016_09_15, end: 2016_09_17 },
        Holiday { start: 2016_10_01, end: 2016_10_07 },
    ]
}

/// The holidays of 2017, with the days around them on which the market stays closed.
pub open spec fn holidays_2017() -> Seq<Holiday> {
    seq![
        Holiday { start: 2017_01_01, end: 2017_01_03 },
        Holiday { start: 2017_01_27, end: 2017_02_02 },
        Holiday { start: 2017_04_02, end: 2017_04_04 },
        Holiday { start: 2017_04_29, end: 2017_05_01 },
        Holiday { start: 2017_05_28, end: 2017_05_30 },
        Holiday { start: 2017_10_01, end: 2017_10_07 },
    ]
}

/// The holidays of 2018, with the days around them on which the market stays closed.
pub open spec fn holidays_2018() -> Seq<Holiday> {
    seq![
        Holiday { start: 2018_01_01, end: 2018_01_03 },
        Holiday { start: 2018_02_15, end: 2018_02_21 },
        Holiday { start: 2018_04_05, end: 2018_04_07 },
        Holiday { start: 2018_04_29, end: 2018_05_01 },
        Holiday { start: 2018_06_16, end: 2018_06_18 },
        Holiday { start: 2018_09_22, end: 2018_09_24 },
        Holiday { start: 2018_09_29, end: 2018_10_07 },
    ]
}

/// The holidays of 2019, with the days around them on which the market stays closed.
pub open spec fn holidays_2019() -> Seq<Holiday> {
    seq![
        Holiday { start: 2019_01_01, end: 2019_01_03 },
        Holiday { start: 2019_02_04, end: 2019_02_10 },
        Holiday { start: 2019_04_05, end: 2019_04_07 },
        Holiday { start: 2019_04_29, end: 2019_05_01 },
        Holiday { start: 2019_06_07, end: 2019_06_09 },
        Holiday { start: 2019_09_13, end: 2019_09_15 },
        Holiday { start: 2019_10_01, end: 2019_10_07 },
    ]
}

/// The holidays of 2020, with the days around them on which the market stays closed.
pub open spec fn holidays_2020() -> Seq<Holiday> {
    seq![
        Holiday { start: 2020_01_01, end: 2020_01_03 },
        Holiday { start: 2020_01_24, end: 2020_01_30 },
        Holiday { start: 2020_04_04, end: 2020_04_06 },
        Holiday { start: 2020_04_30, end: 2020_05_04 },
        Holiday { start: 2020_06_25, end: 2020_06_27 },
        Holiday { start: 2020_09_30, end: 2020_10_07 },
    ]
}

/// The holidays of 2021, with the days around them on which the market stays closed.
pub open spec fn holidays_2021() -> Seq<Holiday> {
    seq![
        Holiday { start: 2021_01_01, end: 2021_01_03 },
        Holiday { start: 2021_02_11, end: 2021_02_17 },
        Holiday { start: 2021_04_03, end: 2021_04_05 },
        Holiday { start: 2021_04_30, end: 2021_05_04 },
        Holiday { start: 2021_06_12, end: 2021_06_14 },
        Holiday { start: 2021_09_19, end: 2021_09_21 },
        Holiday { start: 2021_10_01, end: 2021_10_07 },
    ]
}

/// The holidays of 2022, with the days around them on which the market stays closed.
pub open spec fn holidays_2022() -> Seq<Holiday> {
    seq![
        Holiday { start: 2022_01_01, end: 2022_01_03 },
        Holiday { start: 2022_01_31, end: 2022_02_06 },
        Holiday { start: 2022_04_03, end: 2022_04_05 },
        Holiday { start: 2022_04_30, end: 2022_05_04 },
        Holiday { start: 2022_06_03, end: 2022_06_05 },
        Holiday { start: 2022_09_10, end: 2022_09_12 },
        Holiday { start: 2022_10_01, end: 2022_10_07 },
    ]
}

/// The holidays of 2023, with the days around them on which the market stays closed.
pub open spec fn holidays_2023() -> Seq<Holiday> {
    seq![
        Holiday { start: 2022_12_31, end: 2023_01_02 },
        Holiday { start: 2023_01_21, end: 2023_01_27 },
        Holiday { start: 2023_04_05, end: 2023_04_05 },
        Holiday { start: 2023_05_01, end: 2023_05_03 },
        Holiday { start: 2023_06_22, end: 2023_06_24 },
        Holiday { start: 2023_09_29, end: 2023_10_06 },
        Holiday { start: 2023_10_01, end: 2023_10_07 },
    ]
}

/// The holidays of the years 2016 to 2023, in the order of the years.
pub open spec fn holiday_table() -> Seq<Holiday> {
    holidays_2016() + holidays_2017() + holidays_2018() + holidays_2019() + holidays_2020() + holidays_2021() + holidays_2022() + holidays_2023()
}

/// Whether the date with key `key` lies in a run of the table.
pub open spec fn is_holiday_key(key: int) -> bool {
    exists|i: int| 0 <= i < holiday_table().len() && (#[trigger] holiday_table()[i]).covers(key)
}

/// Whether the day that `text` names lies in a run of the table, by lexical
/// comparison with the texts of the run's ends.
pub open spec fn is_holiday_text(text: Seq<char>) -> bool {
    exists|i: int|
        0 <= i < holiday_table().len() && (#[trigger] holiday_table()[i]).covers_text(text)
}

/// Whether `date` is a holiday.
pub open spec fn is_holiday_date(date: Date) -> bool {
    is_holiday_key(date.key())
}

/// Whether `date` is a Saturday or a Sunday.
pub open spec fn is_weekend_date(date: Date) -> bool {
    date.weekday() >= 5
}

/// Whether the market trades on `date`: on every day that is neither a
/// weekend day nor a holiday.
pub open spec fn is_trading_date(date: Date) -> bool {
    !is_weekend_date(date) && !is_holiday_date(date)
}

/// What [`is_weekend`] answers for `text`.
pub open spec fn is_weekend_text(text: Seq<char>) -> Result<bool, ParseFailure> {
    match parsed_date(date_part(text), FORMAT@) {
        Some((year, month, day)) => if crate::calendar::valid_date(
            year as int,
            month as int,
            day as int,
        ) {
            Ok(is_weekend_date(Date::of(year as int, month as int, day as int)))
        } else {
            Err(ParseFailure)
        },
        None => Err(ParseFailure),
    }
}

/// What [`is_trading_day`] answers for `text`.
pub open spec fn is_trading_day_text(text: Seq<char>) -> Result<bool, ParseFailure> {
    match is_weekend_text(text) {
        Ok(weekend) => Ok(!weekend && !is_holiday_text(text)),
        Err(e) => Err(e),
    }
}

/// The nearest trading day at or before `date`.
pub open spec fn snap_back(date: Date) -> Date
    decreases date.num(),
{
    if !date.wf() || is_trading_date(date) || date == Date::first() {
        date
    } else {
        proof {
            date.lemma_pred();
            date.pred().lemma_bounds();
        }
        snap_back(date.pred())
    }
}

/// The nearest trading day at or after `date`.
pub open spec fn snap_forward(date: Date) -> Date
    decreases Date::last_num() - date.num(),
{
    if !date.wf() || is_trading_date(date) || date == Date::last() {
        date
    } else {
        proof {
            date.lemma_succ();
            date.succ().lemma_bounds();
        }
        snap_forward(date.succ())
    }
}

impl Holiday {
    /// Whether the run holds the date with key `key`.
    pub open spec fn covers(self, key: int) -> bool {
        self.start <= key <= self.end
    }

    /// Whether the run holds the day that `text` names, by lexical comparison.
    pub open spec fn covers_text(self, text: Seq<char>) -> bool {
        lex_le(key_text(self.start as int), date_part(text)) && lex_le(
            date_part(text),
            key_text(self.end as int),
        )
    }

    pub fn new(start: u32, end: u32) -> (r: Holiday)
        ensures
            r == (Holiday { start, end }),
    {
        Holiday { start, end }
    }

    /// Whether the day that `date` names lies in the run. Only the first ten
    /// characters of `date` count.
    pub fn is_holiday(&self, date: &str) -> (r: bool)
        ensures
            r == self.covers_text(date@),
    {
        let part: &str = date_prefix(date);
        let low: String = key_to_text(self.start);
        let high: String = key_to_text(self.end);
        text_le(low.as_str(), part) && text_le(part, high.as_str())
    }

    /// Whether `date` lies in the run.
    pub fn holds(&self, date: &Date) -> (r: bool)
        ensures
            r == self.covers(date.key()),
    {
        let key: u32 = date.key_number();
        self.start <= key && key <= self.end
    }
}

/// The text `YYYY-MM-DD` of a date key.
pub fn key_to_text(key: u32) -> (r: String)
    ensures
        r@ == key_text(key as int),
{
    let mut out: String = String::new();
    push_four_digits(&mut out, key / 10000);
    push_char(&mut out, '-');
    push_two_digits(&mut out, key / 100 % 100);
    push_char(&mut out, '-');
    push_two_digits(&mut out, key % 100);
    assert(out@ =~= key_text(key as int));
    out
}

/// The first ten characters of `date`, or all of it where it has fewer.
pub fn date_prefix(date: &str) -> (r: &str)
    ensures
        r@ == date_part(date@),
{
    if date.unicode_len() > 10 {
        date.substring_char(0, 10)
    } else {
        date
    }
}

/// The table of holidays.
pub fn holidays() -> (table: Vec<Holiday>)
    ensures
        table@ == holiday_table(),
{
    let mut table: Vec<Holiday> = Vec::new();
    // 2016
    table.push(Holiday::new(2016_01_01, 2016_01_03));
    table.push(Holiday::new(2016_02_07, 2016_02_13));
    table.push(Holiday::new(2016_04_02, 2016_04_04));
    table.push(Holiday::new(2016_04_29, 2016_05_01));
    table.push(Holiday::new(2016_06_09, 2016_06_11));
    table.push(Holiday::new(2016_09_15, 2016_09_17));
    table.push(Holiday::new(2016_10_01, 2016_10_07));
    assert(table@ =~= holidays_2016());
    // 2017
    table.push(Holiday::new(2017_01_01, 2017_01_03));
    table.push(Holiday::new(2017_01_27, 2017_02_02));
    table.push(Holiday::new(2017_04_02, 2017_04_04));
    table.push(Holiday::new(2017_04_29, 2017_05_01));
    table.push(Holiday::new(2017_05_28, 2017_05_30));
    table.push(Holiday::new(2017_10_01, 2017_10_07));
    assert(table@ =~= holidays_2016() + holidays_2017());
    // 2018
    table.push(Holiday::new(2018_01_01, 2018_01_03));
    table.push(Holiday::new(2018_02_15, 2018_02_21));
    table.push(Holiday::new(2018_04_05, 2018_04_07));
    table.push(Holiday::new(2018_04_29, 2018_05_01));
    table.push(Holiday::new(2018_06_16, 2018_06_18));
    table.push(Holiday::new(2018_09_22, 2018_09_24));
    table.push(Holiday::new(2018_09_29, 2018_10_07));
    assert(table@ =~= holidays_2016() + holidays_2017() + holidays_2018());
    // 2019
    table.push(Holiday::new(2019_01_01, 2019_01_03));
    table.push(Holiday::new(2019_02_04, 2019_02_10));
    table.push(Holiday::new(2019_04_05, 2019_04_07));
    table.push(Holiday::new(2019_04_29, 2019_05_01));
    table.push(Holiday::new(2019_06_07, 2019_06_09));
    table.push(Holiday::new(2019_09_13, 2019_09_15));
    table.push(Holiday::new(2019_10_01, 2019_10_07));
    assert(table@ =~= holidays_2016() + holidays_2017() + holidays_2018() + holidays_2019());
    // 2020
    table.push(Holiday::new(2020_01_01, 2020_01_03));
    table.push(Holiday::new(2020_01_24, 2020_01_30));
    table.push(Holiday::new(2020_04_04, 2020_04_06));
    table.push(Holiday::new(2020_04_30, 2020_05_04));
    table.push(Holiday::new(2020_06_25, 2020_06_27));
    table.push(Holiday::new(2020_09_30, 2020_10_07));
    assert(table@ =~= holidays_2016() + holidays_2017() + holidays_2018() + holidays_2019() + holidays_2020());
    // 2021
    table.push(Holiday::new(2021_01_01, 2021_01_03));
    table.push(Holiday::new(2021_02_11, 2021_02_17));
    table.push(Holiday::new(2021_04_03, 2021_04_05));
    table.push(Holiday::new(2021_04_30, 2021_05_04));
    table.push(Holiday::new(2021_06_12, 2021_06_14));
    table.push(Holiday::new(2021_09_19, 2021_09_21));
    table.push(Holiday::new(2021_10_01, 2021_10_07));
    assert(table@ =~= holidays_2016() + holidays_2017() + holidays_2018() + holidays_2019() + holidays_2020() + holidays_2021());
    // 2022
    table.push(Holiday::new(2022_01_01, 2022_01_03));
    table.push(Holiday::new(2022_01_31, 2022_02_06));
    table.push(Holiday::new(2022_04_03, 2022_04_05));
    table.push(Holiday::new(2022_04_30, 2022_05_04));
    table.push(Holiday::new(2022_06_03, 2022_06_05));
    table.push(Holiday::new(2022_09_10, 2022_09_12));
    table.push(Holiday::new(2022_10_01, 2022_10_07));
    assert(table@ =~= holidays_2016() + holidays_2017() + holidays_2018() + holidays_2019() + holidays_2020() + holidays_2021() + holidays_2022());
    // 2023
    table.push(Holiday::new(2022_12_31, 2023_01_02));
    table.push(Holiday::new(2023_01_21, 2023_01_27));
    table.push(Holiday::new(2023_04_05, 2023_04_05));
    table.push(Holiday::new(2023_05_01, 2023_05_03));
    table.push(Holiday::new(2023_06_22, 2023_06_24));
    table.push(Holiday::new(2023_09_29, 2023_10_06));
    table.push(Holiday::new(2023_10_01, 2023_10_07));
    assert(table@ =~= holidays_2016() + holidays_2017() + holidays_2018() + holidays_2019() + holidays_2020() + holidays_2021() + holidays_2022() + holidays_2023());
    table
}

/// Every run of the table lies in the years 2016 to 2023.
pub proof fn lemma_table_span()
    ensures
        forall|key: int| is_holiday_key(key) ==> 2016_01_01 <= key <= 2023_10_07,
{
    lemma_table_runs();
}

/// Every run of the table starts no later than it ends, within the years
/// 2016 to 2023.
pub proof fn lemma_table_runs()
    ensures
        forall|i: int|
            0 <= i < holiday_table().len() ==> 2016_01_01 <= (#[trigger] holiday_table()[i]).start
                && holiday_table()[i].start <= holiday_table()[i].end && holiday_table()[i].end
                <= 2023_10_07,
{
    let t = holiday_table();
    assert forall|i: int| 0 <= i < t.len() implies 2016_01_01 <= (#[trigger] t[i]).start
        && t[i].start <= t[i].end && t[i].end <= 2023_10_07 by {
        lemma_year_span(holidays_2016(), 0, i);
        lemma_year_span(holidays_2017(), 7, i);
        lemma_year_span(holidays_2018(), 13, i);
        lemma_year_span(holidays_2019(), 20, i);
        lemma_year_span(holidays_2020(), 27, i);
        lemma_year_span(holidays_2021(), 33, i);
        lemma_year_span(holidays_2022(), 40, i);
        lemma_year_span(holidays_2023(), 47, i);
    }
}

/// The runs of one year of the table lie in the years 2016 to 2023.
proof fn lemma_year_span(year: Seq<Holiday>, offset: int, i: int)
    requires
        year == holidays_2016() || year == holidays_2017() || year == holidays_2018() || year
            == holidays_2019() || year == holidays_2020() || year == holidays_2021() || year
            == holidays_2022() || year == holidays_2023(),
    ensures
        0 <= i - offset < year.len() ==> 2016_01_01 <= year[i - offset].start && year[i
            - offset].start <= year[i - offset].end && year[i - offset].end <= 2023_10_07,
{
}

/// The first and the last day of the calendar are trading days.
pub proof fn lemma_ends_trade()
    ensures
        is_trading_date(Date::first()),
        is_trading_date(Date::last()),
{
    Date::lemma_ends();
    lemma_table_span();
}

/// Whether the day that `date` names is a holiday. Only the first ten
/// characters of `date` count, and they are compared as text.
pub fn is_holiday(date: &str) -> (r: bool)
    ensures
        r == is_holiday_text(date@),
{
    let table: Vec<Holiday> = holidays();
    let mut i: usize = 0;
    while i < table.len()
        invariant
            i <= table.len(),
            table@ == holiday_table(),
            forall|j: int| 0 <= j < i ==> !(#[trigger] holiday_table()[j]).covers_text(date@),
        decreases table.len() - i,
    {
        if table[i].is_holiday(date) {
            return true;
        }
        i = i + 1;
    }
    false
}

/// Whether the day that `date` names is no holiday.
pub fn not_holiday(date: &str) -> (r: bool)
    ensures
        r == !is_holiday_text(date@),
{
    !is_holiday(date)
}

/// Whether `date` is a holiday.
pub fn holiday_on(date: &Date) -> (r: bool)
    ensures
        r == is_holiday_date(*date),
{
    let table: Vec<Holiday> = holidays();
    let mut i: usize = 0;
    while i < table.len()
        invariant
            i <= table.len(),
            table@ == holiday_table(),
            forall|j: int| 0 <= j < i ==> !(#[trigger] holiday_table()[j]).covers(date.key()),
        decreases table.len() - i,
    {
        if table[i].holds(date) {
            return true;
        }
        i = i + 1;
    }
    false
}

/// Whether `date` is a Saturday or a Sunday.
pub fn weekend_on(date: &Date) -> (r: bool)
    ensures
        r == is_weekend_date(*date),
{
    date.weekday_index() >= 5
}

/// Whether the market trades on `date`.
pub fn trading_on(date: &Date) -> (r: bool)
    ensures
        r == is_trading_date(*date),
        r == (!is_weekend_date(*date) && !is_holiday_date(*date)),
{
    !weekend_on(date) && !holiday_on(date)
}

/// Whether the day that `date` names is a Saturday or a Sunday. Fails where
/// the first ten characters of `date` do not name a day of the calendar.
pub fn is_weekend(date: &str) -> (r: Result<bool, ParseFailure>)
    ensures
        r == is_weekend_text(date@),
{
    let part: &str = date_prefix(date);
    match parse_date(part, FORMAT) {
        Ok((year, month, day)) => {
            if year < 1 {
                return Err(ParseFailure);
            }
            match Date::new(year as u32, month, day) {
                Some(d) => Ok(weekend_on(&d)),
                None => Err(ParseFailure),
            }
        },
        Err(_) => Err(ParseFailure),
    }
}

/// Whether the market trades on the day that `date` names: it does on every
/// day that is neither a weekend day nor a holiday. Fails as [`is_weekend`] does.
pub fn is_trading_day(date: &str) -> (r: Result<bool, ParseFailure>)
    ensures
        r == is_trading_day_text(date@),
        r == match is_weekend_text(date@) {
            Ok(weekend) => Ok::<bool, ParseFailure>(!weekend && !is_holiday_text(date@)),
            Err(e) => Err(e),
        },
{
    match is_weekend(date) {
        Ok(weekend) => Ok(!weekend && not_holiday(date)),
        Err(e) => Err(e),
    }
}

/// What [`snap_back`] finds: a trading day, no later than `date`, with no
/// trading day between the two.
pub proof fn lemma_snap_back(date: Date)
    requires
        date.wf(),
    ensures
        snap_back(date).wf(),
        is_trading_date(snap_back(date)),
        snap_back(date).key() <= date.key(),
        is_trading_date(date) ==> snap_back(date) == date,
        forall|x: Date|
            x.wf() && snap_back(date).key() < x.key() && #[trigger] x.key() <= date.key()
                ==> !is_trading_date(x),
    decreases date.num(),
{
    lemma_ends_trade();
    if !is_trading_date(date) && date != Date::first() {
        date.lemma_pred();
        date.pred().lemma_bounds();
        lemma_snap_back(date.pred());
        assert forall|x: Date|
            x.wf() && snap_back(date).key() < x.key() && #[trigger] x.key() <= date.key()
                implies !is_trading_date(x) by {
            if x.key() == date.key() {
                x.lemma_key_injective(date);
            }
        }
    }
}

/// What [`snap_forward`] finds: a trading day, no earlier than `date`, with no
/// trading day between the two.
pub proof fn lemma_snap_forward(date: Date)
    requires
        date.wf(),
    ensures
        snap_forward(date).wf(),
        is_trading_date(snap_forward(date)),
        date.key() <= snap_forward(date).key(),
        is_trading_date(date) ==> snap_forward(date) == date,
        forall|x: Date|
            x.wf() && date.key() <= #[trigger] x.key() && x.key() < snap_forward(date).key()
                ==> !is_trading_date(x),
    decreases Date::last_num() - date.num(),
{
    lemma_ends_trade();
    if !is_trading_date(date) && date != Date::last() {
        date.lemma_succ();
        date.succ().lemma_bounds();
        lemma_snap_forward(date.succ());
        assert forall|x: Date|
            x.wf() && date.key() <= #[trigger] x.key() && x.key() < snap_forward(date).key()
                implies !is_trading_date(x) by {
            if x.key() == date.key() {
                x.lemma_key_injective(date);
            }
        }
    }
}

/// The nearest trading day at or before `date`.
pub fn snap_backward(date: Date) -> (r: Date)
    ensures
        r == snap_back(date),
        r.wf(),
        is_trading_date(r),
{
    let mut at: Date = date;
    proof {
        use_type_invariant(&date);
        lemma_snap_back(date);
    }
    while !trading_on(&at)
        invariant
            at.wf(),
            snap_back(at) == snap_back(date),
            snap_back(date).wf(),
        decreases at.num(),
    {
        proof {
            lemma_ends_trade();
        }
        let before: Date = at.prev_day().unwrap();
        proof {
            at.lemma_pred();
            before.lemma_bounds();
        }
        at = before;
    }
    at
}

/// The nearest trading day at or after `date`.
pub fn snap_onward(date: Date) -> (r: Date)
    ensures
        r == snap_forward(date),
        r.wf(),
        is_trading_date(r),
{
    let mut at: Date = date;
    proof {
        use_type_invariant(&date);
        lemma_snap_forward(date);
    }
    while !trading_on(&at)
        invariant
            at.wf(),
            snap_forward(at) == snap_forward(date),
            snap_forward(date).wf(),
        decreases Date::last_num() - at.num(),
    {
        proof {
            lemma_ends_trade();
        }
        let after: Date = at.next_day().unwrap();
        proof {
            at.lemma_succ();
            after.lemma_bounds();
        }
        at = after;
    }
    at
}

/// Where [`to_trading_day`] leads from `date`: back to the nearest trading
/// day, on to the nearest one, or nowhere.
pub open spec fn trading_day_toward(date: Date, order: Ordering) -> Date {
    match order {
        Ordering::Less => snap_back(date),
        Ordering::Greater => snap_forward(date),
        Ordering::Equal => date,
    }
}

/// Moves `date` day by day in the direction of `order`, back for `Less` and on
/// for `Greater`, until it stands on a trading day; the time of day stays.
/// With `Equal` nothing moves, so the day must be a trading day already.
pub fn to_trading_day(date: Instant, order: Ordering) -> (r: Instant)
    requires
        order == Ordering::Equal ==> is_trading_date(date.spec_date()),
    ensures
        r == Instant::of(trading_day_toward(date.spec_date(), order), date.spec_second()),
        r.wf(),
        is_trading_date(r.spec_date()),
{
    let day: Date = date.date();
    let found: Date = match order {
        Ordering::Less => snap_backward(day),
        Ordering::Greater => snap_onward(day),
        Ordering::Equal => day,
    };
    proof {
        use_type_invariant(&date);
        date.lemma_parts();
        Instant::lemma_of(found, date.spec_second());
    }
    date.with_date(found)
}

/// From a trading day, the previous trading day of the next trading day is
/// the day itself: between a trading day and the next no other one lies.
pub proof fn lemma_next_then_previous(date: Date)
    requires
        date.wf(),
        is_trading_date(date),
        date != Date::last(),
    ensures
        snap_forward(date.succ()).wf(),
        snap_forward(date.succ()) != Date::first(),
        snap_back(snap_forward(date.succ()).pred()) == date,
{
    date.lemma_succ();
    let next = snap_forward(date.succ());
    lemma_snap_forward(date.succ());
    Date::lemma_ends();
    assert(next != Date::first()) by {
        date.lemma_bounds();
    }
    next.lemma_pred();
    let before = next.pred();
    lemma_snap_back(before);
    let back = snap_back(before);
    assert(date.key() <= before.key());
    if back.key() > date.key() {
        assert(date.succ().key() <= back.key());
        assert(back.key() < next.key());
        assert(!is_trading_date(back));
    }
    if back.key() < date.key() {
        assert(!is_trading_date(date));
    }
    back.lemma_key_injective(date);
}

/// From a trading day, the next trading day of the previous trading day is
/// the day itself.
pub proof fn lemma_previous_then_next(date: Date)
    requires
        date.wf(),
        is_trading_date(date),
        date != Date::first(),
    ensures
        snap_back(date.pred()).wf(),
        snap_back(date.pred()) != Date::last(),
        snap_forward(snap_back(date.pred()).succ()) == date,
{
    date.lemma_pred();
    let prev = snap_back(date.pred());
    lemma_snap_back(date.pred());
    Date::lemma_ends();
    assert(prev != Date::last()) by {
        date.lemma_bounds();
    }
    prev.lemma_succ();
    let after = prev.succ();
    lemma_snap_forward(after);
    let on = snap_forward(after);
    assert(after.key() <= date.key());
    if on.key() < date.key() {
        assert(on.key() <= date.pred().key());
        assert(prev.key() < on.key());
        assert(!is_trading_date(on));
    }
    if on.key() > date.key() {
        assert(!is_trading_date(date));
    }
    on.lemma_key_injective(date);
}

/// Where two texts first differ, the characters at that place decide their order.
pub proof fn lemma_first_difference(a: Seq<char>, b: Seq<char>, i: int)
    requires
        0 <= i < a.len(),
        i < b.len(),
        a.take(i) == b.take(i),
        a[i] != b[i],
    ensures
        lex_le(a, b) == ((a[i] as int) < (b[i] as int)),
{
    lemma_lex_le_skip(a, b, i);
    assert(a.skip(i)[0] == a[i]);
    assert(b.skip(i)[0] == b[i]);
}

/// The digits of a number in the order of their characters.
pub proof fn lemma_digit_order(x: int, y: int)
    requires
        0 <= x <= 9,
        0 <= y <= 9,
    ensures
        (digit_char(x) == digit_char(y)) == (x == y),
        ((digit_char(x) as int) < (digit_char(y) as int)) == (x < y),
{
}

/// Numbers below 100 come in the order of their two-digit texts.
pub proof fn lemma_two_digits_order(x: int, y: int)
    requires
        0 <= x < 100,
        0 <= y < 100,
    ensures
        (two_digits(x) == two_digits(y)) == (x == y),
        lex_le(two_digits(x), two_digits(y)) == (x <= y),
{
    let s = two_digits(x);
    let t = two_digits(y);
    lemma_digit_order(x / 10 % 10, y / 10 % 10);
    lemma_digit_order(x % 10, y % 10);
    if s[0] != t[0] {
        assert(s.take(0) =~= t.take(0));
        lemma_first_difference(s, t, 0);
    } else if s[1] != t[1] {
        assert(s.take(1) =~= t.take(1));
        lemma_first_difference(s, t, 1);
    } else {
        assert(s =~= t);
        lemma_lex_le_refl(s);
    }
}

/// The four digits of a number are the two digits of its hundreds and the
/// two digits of what is left.
pub proof fn lemma_four_digits_halves(x: int)
    requires
        0 <= x < 10000,
    ensures
        four_digits(x) == two_digits(x / 100) + two_digits(x % 100),
{
    let h = x / 100;
    let l = x % 100;
    assert(x == 100 * h + l);
    assert(x / 1000 == h / 10);
    assert(x / 100 % 10 == h % 10);
    assert(x / 10 == 10 * h + l / 10);
    assert(x / 10 % 10 == l / 10 % 10);
    assert(x % 10 == l % 10);
    assert(four_digits(x) =~= two_digits(h) + two_digits(l));
}

/// Numbers below 10000 come in the order of their four-digit texts.
pub proof fn lemma_four_digits_order(x: int, y: int)
    requires
        0 <= x < 10000,
        0 <= y < 10000,
    ensures
        (four_digits(x) == four_digits(y)) == (x == y),
        lex_le(four_digits(x), four_digits(y)) == (x <= y),
{
    lemma_four_digits_halves(x);
    lemma_four_digits_halves(y);
    let hx = x / 100;
    let lx = x % 100;
    let hy = y / 100;
    let ly = y % 100;
    assert(x == 100 * hx + lx && y == 100 * hy + ly);
    lemma_two_digits_order(hx, hy);
    lemma_two_digits_order(lx, ly);
    lemma_lex_le_parts(two_digits(hx), two_digits(lx), two_digits(hy), two_digits(ly));
    if four_digits(x) == four_digits(y) {
        let s = four_digits(x);
        let t = four_digits(y);
        assert(two_digits(hx) =~= s.take(2));
        assert(two_digits(hy) =~= t.take(2));
        assert(two_digits(lx) =~= s.skip(2));
        assert(two_digits(ly) =~= t.skip(2));
    }
}

/// Two texts that begin with parts of one length are ordered by those
/// parts, or, where the parts are the same, by what follows them.
pub proof fn lemma_lex_le_parts(p: Seq<char>, r: Seq<char>, q: Seq<char>, t: Seq<char>)
    requires
        p.len() == q.len(),
    ensures
        lex_le(p + r, q + t) == if p == q {
            lex_le(r, t)
        } else {
            lex_le(p, q)
        },
    decreases p.len(),
{
    if p.len() == 0 {
        assert(p =~= q);
        assert(p + r =~= r);
        assert(q + t =~= t);
    } else {
        let a = p + r;
        let b = q + t;
        assert(a[0] == p[0] && b[0] == q[0]);
        assert(a.drop_first() =~= p.drop_first() + r);
        assert(b.drop_first() =~= q.drop_first() + t);
        lemma_lex_le_parts(p.drop_first(), r, q.drop_first(), t);
        assert(p =~= seq![p[0]] + p.drop_first());
        assert(q =~= seq![q[0]] + q.drop_first());
    }
}

/// Dates come in the order of their texts: by year, then month, then day.
pub proof fn lemma_date_text_order(y1: int, m1: int, d1: int, y2: int, m2: int, d2: int)
    requires
        0 <= y1 < 10000,
        0 <= y2 < 10000,
        0 <= m1 < 100,
        0 <= m2 < 100,
        0 <= d1 < 100,
        0 <= d2 < 100,
    ensures
        lex_le(date_text(y1, m1, d1), date_text(y2, m2, d2)) == (y1 < y2 || (y1 == y2 && (m1 < m2
            || (m1 == m2 && d1 <= d2)))),
{
    let dash = seq!['-'];
    let rest1 = dash + two_digits(m1) + dash + two_digits(d1);
    let rest2 = dash + two_digits(m2) + dash + two_digits(d2);
    let tail1 = two_digits(m1) + dash + two_digits(d1);
    let tail2 = two_digits(m2) + dash + two_digits(d2);
    let end1 = dash + two_digits(d1);
    let end2 = dash + two_digits(d2);
    assert(date_text(y1, m1, d1) =~= four_digits(y1) + rest1);
    assert(date_text(y2, m2, d2) =~= four_digits(y2) + rest2);
    assert(rest1 =~= dash + tail1);
    assert(rest2 =~= dash + tail2);
    assert(tail1 =~= two_digits(m1) + end1);
    assert(tail2 =~= two_digits(m2) + end2);
    lemma_four_digits_order(y1, y2);
    lemma_two_digits_order(m1, m2);
    lemma_two_digits_order(d1, d2);
    lemma_lex_le_parts(four_digits(y1), rest1, four_digits(y2), rest2);
    lemma_lex_le_parts(dash, tail1, dash, tail2);
    lemma_lex_le_parts(two_digits(m1), end1, two_digits(m2), end2);
    lemma_lex_le_parts(dash, two_digits(d1), dash, two_digits(d2));
}

/// Date keys of eight digits come in the order of their texts.
pub proof fn lemma_key_text_order(a: int, b: int)
    requires
        0 <= a < 100_000_000,
        0 <= b < 100_000_000,
    ensures
        lex_le(key_text(a), key_text(b)) == (a <= b),
{
    let ya = a / 10000;
    let ra = a % 10000;
    let yb = b / 10000;
    let rb = b % 10000;
    assert(a == 10000 * ya + ra && b == 10000 * yb + rb);
    assert(a / 100 == 100 * ya + ra / 100 && b / 100 == 100 * yb + rb / 100);
    assert(a / 100 % 100 == ra / 100 && b / 100 % 100 == rb / 100);
    assert(a % 100 == ra % 100 && b % 100 == rb % 100);
    assert(ra == 100 * (ra / 100) + ra % 100 && rb == 100 * (rb / 100) + rb % 100);
    lemma_date_text_order(ya, ra / 100, ra % 100, yb, rb / 100, rb % 100);
}

/// The text of a date is the text of its key, ten characters long.
pub proof fn lemma_text_of_key(date: Date)
    requires
        date.wf(),
    ensures
        date.text() == key_text(date.key()),
        date.text().len() == 10,
        date_part(date.text()) == date.text(),
        0 <= date.key() < 100_000_000,
{
    date.lemma_fields();
    date.lemma_bounds();
    let key = date.key();
    assert(key / 10000 == date.spec_year() && key / 100 % 100 == date.spec_month() && key % 100
        == date.spec_day());
}

/// A date is a holiday by its text where it is one by its key: the table is
/// read the same way by [`is_holiday`] and by [`holiday_on`].
pub proof fn law_holiday_by_text(date: Date)
    requires
        date.wf(),
    ensures
        is_holiday_text(date.text()) == is_holiday_date(date),
{
    lemma_text_of_key(date);
    let key = date.key();
    let text = date.text();
    lemma_table_runs();
    assert forall|i: int| 0 <= i < holiday_table().len() implies (#[trigger] holiday_table()[i]).covers_text(
        text,
    ) == holiday_table()[i].covers(key) by {
        lemma_key_text_order(holiday_table()[i].start as int, key);
        lemma_key_text_order(key, holiday_table()[i].end as int);
    }
}

} // verus!
