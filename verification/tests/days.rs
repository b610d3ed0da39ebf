use std::cmp::Ordering;
use std::str::FromStr;

use chrono::Duration;
use trading::{
    holidays, is_holiday, is_trading_day, is_weekend, not_holiday, to_trading_day, Date, Holiday,
    Instant, ParseFailure, Period, TradingDay,
};

#[test]
fn test_holidays() {
    assert!(is_holiday("2020-01-01"));
    assert!(is_weekend("2020-01-04").unwrap());
    assert!(is_trading_day("2020-01-06").unwrap());
}

#[test]
fn test_period() {
    let day = Period::from_str("day").unwrap();
    let week = Period::Week;
    let minute = Period::Minute(5);
    let period1 = Period::from_str("5m").unwrap();
    let period2 = Period::Minute(15);
    assert_ne!(day, week);
    assert_ne!(period1, period2);
    assert_eq!(minute, period1);
}

#[test]
fn test_trading_day() {
    {
        let day = TradingDay::from_str("2023-07-06").unwrap();
        let open_time = day.open_time();
        let close_time = day.close_time();
        assert_eq!("2023-07-06", day.to_string());
        assert_eq!("2023-07-06 09:30:00", open_time.to_string());
        assert_eq!("2023-07-06 15:00:00", close_time.to_string());
    }

    {
        let day = TradingDay::from_str("2023-07-06 10:42").unwrap();
        let open_time = day.open_time();
        let close_time = day.close_time();
        assert_eq!("2023-07-06 09:30:00", open_time.to_string());
        assert_eq!("2023-07-06 15:00:00", close_time.to_string());
    }
}

#[test]
fn test_week() {
    let day = TradingDay::from_str("2023-07-06").unwrap();
    let week_start = day.week_start_day();
    let week_end = day.week_end_day();
    assert_eq!("2023-07-03", week_start.to_string(), "week start");
    assert_eq!("2023-07-09", week_end.to_string(), "week end");

    let day = week_start;
    let week_start = day.week_start_day();
    let week_end = day.week_end_day();
    assert_eq!("2023-07-03", week_start.to_string(), "week start");
    assert_eq!("2023-07-09", week_end.to_string(), "week end");
}

#[test]
fn test_ops_day() {
    let day = TradingDay::from_str("2023-07-06").unwrap();

    let d2 = day.clone().add(1);
    assert_eq!("2023-07-07", d2.to_string(), "add 1 day");

    let d1 = day.clone().sub(1);
    assert_eq!("2023-07-05", d1.to_string(), "sub 1 day");

    let d3 = day.add(2);
    assert_eq!("2023-07-10", d3.to_string(), "add 2 day");
}

#[test]
fn test_ops_week() {
    let day = TradingDay::from_str("2023-07-06").unwrap().with_period(Period::Week);
    assert_eq!("2023-07-03", day.to_string(), "week start");

    let d2 = day.clone().add(1);
    assert_eq!("2023-07-10", d2.to_string(), "add 1 week");

    let d1 = day.clone().sub(1);
    assert_eq!("2023-06-26", d1.to_string(), "sub 1 week");

    let d3 = day.clone().add(2);
    assert_eq!("2023-07-17", d3.to_string(), "add 2 week");

    let d4 = day.sub(2);
    assert_eq!("2023-06-19", d4.to_string(), "sub 2 week");
}

#[test]
fn test_ops_minutes() {
    let day = TradingDay::from_str("2023-07-06 14:30").unwrap().with_period(Period::Minute(5));

    let d2 = day.clone().add(1);
    assert_eq!("2023-07-06 14:35:00", d2.to_string(), "add 5 minute");

    let d1 = day.clone().sub(1);
    assert_eq!("2023-07-06 14:25:00", d1.to_string(), "sub 5 minute");
}

#[test]
fn test_ops_duration() {
    {
        let day = TradingDay::from_str("2023-07-06").unwrap();

        let d2 = day.clone().add_duration(Duration::seconds(10)).unwrap();
        assert_eq!("2023-07-06", d2.to_string(), "add 10s");

        let d1 = day.clone().sub_duration(Duration::seconds(86400)).unwrap();
        assert_eq!("2023-07-05", d1.to_string(), "sub 1 day");

        let d3 = day.add_duration(Duration::seconds(86400 * 2)).unwrap();
        assert_eq!("2023-07-10", d3.to_string(), "add 2 day");
    }
    {
        let day = TradingDay::from_str("2023-07-06 13:10").unwrap();
        let d2 = day.clone().add_duration(Duration::minutes(10)).unwrap();
        assert_eq!("2023-07-06 13:20:00", d2.to_string(), "add 10s");

        let day = TradingDay::from_str("2023-07-06 13:10").unwrap();
        let d2 = day.clone().add_duration(Duration::minutes(7)).unwrap();
        assert_eq!("2023-07-06 13:15:00", d2.to_string(), "add 7m");
    }
}

#[test]
fn test_month() {
    let day = TradingDay::from_str("2023-05-15").unwrap();
    println!("month start day: {}", day.month_start_day().to_string());
    println!("month end day: {}", day.month_end_day().to_string());
    assert_eq!("2023-05-01", day.month_start_day().to_string());
    assert_eq!("2023-05-31", day.month_end_day().to_string());
}

#[test]
fn month_end_of_december_and_february() {
    let december = TradingDay::from_str("2023-12-15").unwrap();
    assert_eq!("2023-12-31", december.month_end_day().to_string());
    let leap = TradingDay::from_str("2024-02-05").unwrap();
    assert_eq!("2024-02-29", leap.month_end_day().to_string());
    let plain = TradingDay::from_str("2023-02-06").unwrap();
    assert_eq!("2023-02-28", plain.month_end_day().to_string());
    let century = Date::new(1900, 2, 29);
    assert!(century.is_none());
    assert!(Date::new(2000, 2, 29).is_some());
}

#[test]
fn holiday_table_is_read_by_text_and_by_date() {
    assert_eq!(54, holidays().len());
    assert!(is_holiday("2016-01-01"));
    assert!(is_holiday("2023-10-07"));
    assert!(!is_holiday("2023-10-08"));
    assert!(!is_holiday("2015-12-31"));
    assert!(is_holiday("2023-04-05 10:30:00"));
    assert!(!is_holiday("2023-04-0"));
    assert!(not_holiday("2023-04-06"));
    assert!(!not_holiday("2023-04-05"));
    let run = Holiday::new(2023_05_01, 2023_05_03);
    assert!(run.is_holiday("2023-05-02"));
    assert!(run.is_holiday("2023-05-03"));
    assert!(!run.is_holiday("2023-05-04"));
    assert!(run.holds(&Date::new(2023, 5, 1).unwrap()));
    assert!(!run.holds(&Date::new(2023, 4, 30).unwrap()));
    for year in 2015u32..2025 {
        for month in 1u32..13 {
            for day in 1u32..32 {
                if let Some(date) = Date::new(year, month, day) {
                    let text = date.to_text();
                    assert_eq!(trading::holidays::holiday_on(&date), is_holiday(&text), "{}", text);
                    assert_eq!(
                        Ok(trading::holidays::trading_on(&date)),
                        is_trading_day(&text),
                        "{}",
                        text
                    );
                }
            }
        }
    }
}

#[test]
fn trading_day_is_neither_weekend_nor_holiday() {
    for text in ["2020-01-01", "2020-01-04", "2020-01-06", "2023-10-02", "2023-07-08"] {
        let weekend = is_weekend(text).unwrap();
        let holiday = is_holiday(text);
        assert_eq!(is_trading_day(text).unwrap(), !weekend && !holiday, "{}", text);
    }
    assert_eq!(Ok(false), is_trading_day("2020-01-01"));
    assert_eq!(Ok(false), is_trading_day("2020-01-04"));
}

#[test]
fn bad_dates_fail_to_parse() {
    assert_eq!(Err(ParseFailure), is_weekend("not a date"));
    assert_eq!(Err(ParseFailure), is_trading_day("2023-02-30"));
    assert_eq!(Err(ParseFailure), is_weekend("2023-13-01"));
    assert!(TradingDay::from_str("2023-02-30").is_err());
    assert!(TradingDay::from_str("").is_err());
    assert!(TradingDay::from_str("2023-07-06 25:00").is_err());
    assert!(TradingDay::from_str("+12345-01-01 10:00").is_err());
    assert!(Period::from_str("").is_err());
    assert!(Period::from_str("m").is_err());
    assert!(Period::from_str("5x").is_err());
    assert!(Period::from_str("-5m").is_err());
    assert!(Period::from_str("99999999999999999999999999m").is_err());
    assert_eq!(Ok(Period::Minute(30)), Period::from_str("+30m"));
    assert_eq!(Ok(Period::Week), Period::from_str("week"));
}

#[test]
fn period_names() {
    assert_eq!("day", Period::Day.to_string());
    assert_eq!("week", Period::Week.to_string());
    assert_eq!("5m", Period::Minute(5).to_string());
    assert_eq!("0m", Period::Minute(0).to_string());
    assert_eq!("120m", Period::Minute(120).to_string());
    assert_eq!(Period::Day, Period::default());
}

#[test]
fn cursor_with_seconds_is_read() {
    let day = TradingDay::from_str("2023-07-06 10:42:17").unwrap();
    assert_eq!("2023-07-06 10:42:17", day.to_string());
    assert_eq!(&Period::Minute(5), day.period());
    assert_eq!("2023-07-06 09:30:17", day.open_time().to_string());
    assert_eq!("2023-07-06 15:00:17", day.close_time().to_string());
}

#[test]
fn parsing_moves_back_to_a_trading_day() {
    assert_eq!("2023-07-07", TradingDay::from_str("2023-07-09").unwrap().to_string());
    assert_eq!("2023-09-28", TradingDay::from_str("2023-10-05").unwrap().to_string());
    assert_eq!(
        "2023-07-07 10:00:00",
        TradingDay::from_str("2023-07-08 10:00").unwrap().to_string()
    );
}

#[test]
fn next_and_previous_step_over_closed_days() {
    let day = TradingDay::from_str("2023-07-06").unwrap();
    assert_eq!("2023-07-07", day.next().to_string());
    assert_eq!("2023-07-05", day.previous().to_string());
    let before = TradingDay::from_str("2023-09-28").unwrap();
    assert_eq!("2023-10-09", before.next().to_string());
    let after = TradingDay::from_str("2023-10-09").unwrap();
    assert_eq!("2023-09-28", after.previous().to_string());
    assert_eq!(day, day.next().previous());
    assert_eq!(day, day.previous().next());
    assert_eq!(before, before.next().previous());
    assert_eq!(after, after.previous().next());
}

#[test]
fn adding_then_subtracting_returns() {
    let day = TradingDay::from_str("2023-09-20").unwrap();
    for n in 0usize..40 {
        assert_eq!(day, day.add(n).sub(n), "{} sessions", n);
    }
    let week = day.with_period(Period::Week);
    for n in 0usize..10 {
        assert_eq!(week, week.add(n).sub(n), "{} weeks", n);
    }
    let minute = TradingDay::from_str("2023-07-06 09:30").unwrap();
    for n in 0usize..67 {
        assert_eq!(minute, minute.add(n).sub(n), "{} windows", n);
    }
    // past the close the way back ends elsewhere
    let close = TradingDay::from_str("2023-07-06 15:00").unwrap();
    assert_eq!("2023-07-07 09:35:00", close.add(1).to_string());
    assert_eq!("2023-07-07 09:30:00", close.add(1).sub(1).to_string());
    // a week cursor that is not on a Monday goes back to the Monday
    let thursday =
        TradingDay::new(Period::Week, TradingDay::from_str("2023-07-06").unwrap().instant());
    assert_eq!("2023-07-03", thursday.add(1).sub(1).to_string());
}

#[test]
fn minutes_roll_over_the_session() {
    let late = TradingDay::from_str("2023-07-06 14:58").unwrap();
    assert_eq!("2023-07-07 09:35:00", late.add(1).to_string());
    let friday = TradingDay::from_str("2023-07-07 14:58").unwrap();
    assert_eq!("2023-07-10 09:35:00", friday.add(1).to_string());
    let early = TradingDay::from_str("2023-07-07 09:32").unwrap();
    assert_eq!("2023-07-06 15:00:00", early.sub(1).to_string());
    let at_close = TradingDay::from_str("2023-07-06 14:55").unwrap();
    assert_eq!("2023-07-06 15:00:00", at_close.add(1).to_string());
    let half_hour =
        TradingDay::from_str("2023-07-06 14:40").unwrap().with_period(Period::Minute(30));
    assert_eq!("2023-07-07 10:00:00", half_hour.add(1).to_string());
    assert_eq!("2023-07-07 10:30:00", half_hour.add(2).to_string());
}

#[test]
fn durations_count_whole_steps() {
    let week = TradingDay::from_str("2023-07-06").unwrap().with_period(Period::Week);
    assert_eq!("2023-07-03", week.add_duration(Duration::days(6)).unwrap().to_string());
    assert_eq!("2023-07-17", week.add_duration(Duration::days(15)).unwrap().to_string());
    assert_eq!("2023-06-26", week.sub_duration(Duration::weeks(1)).unwrap().to_string());
    let day = TradingDay::from_str("2023-07-06").unwrap();
    assert_eq!(day, day.add_duration(Duration::seconds(-86400 * 3)).unwrap());
    assert_eq!(day, day.sub_duration(Duration::seconds(-5)).unwrap());
    assert_eq!("2023-07-07", day.add_seconds(86400 + 86399).unwrap().to_string());
    assert_eq!(7, trading::trading_day::step_count(Period::Minute(5), 60 * 35 + 59));
    assert_eq!(2, trading::trading_day::step_count(Period::Week, 86400 * 20));
    assert_eq!(0, trading::trading_day::step_count(Period::Day, -1));
}

#[test]
fn the_calendar_ends() {
    let last = TradingDay::day(Instant::midnight(Date::max()));
    assert_eq!("9999-12-31", last.to_string());
    assert!(last.checked_add(1).is_none());
    assert_eq!(Some(last), last.checked_add(0));
    assert_eq!("9999-12-30", last.checked_sub(1).unwrap().to_string());
    let first = TradingDay::day(Instant::midnight(Date::min()));
    assert_eq!("0001-01-01", first.to_string());
    assert!(first.checked_sub(1).is_none());
    assert_eq!("0001-01-02", first.checked_add(1).unwrap().to_string());
    assert!(first.add_duration(Duration::days(4_000_000)).is_none());
    assert!(Date::max().add_days(1).is_none());
    assert_eq!(Some(Date::max()), Date::min().add_days(3_652_058));
    assert_eq!(Some(Date::min()), Date::max().sub_days(3_652_058));
    assert_eq!(4, Date::max().weekday_index());
    assert_eq!(0, Date::min().weekday_index());
    assert_eq!(738_707, Date::new(2023, 7, 6).unwrap().day_count());
    assert_eq!(20230706, Date::new(2023, 7, 6).unwrap().key_number());
}

#[test]
fn sessions_between_two_cursors() {
    let a = TradingDay::from_str("2023-07-06").unwrap();
    let b = TradingDay::from_str("2023-07-10").unwrap();
    assert_eq!(2, a.between(&b));
    assert_eq!(2, b.between(&a));
    assert_eq!(0, a.between(&a));
    assert_eq!(2, a.days(&b));
    let c = TradingDay::from_str("2023-09-28").unwrap();
    let d = TradingDay::from_str("2023-10-10").unwrap();
    assert_eq!(2, c.between(&d));
}

#[test]
fn latest_session_depends_on_the_hour() {
    let date = Date::new(2023, 7, 6).unwrap();
    let early = Instant::new(date, 9, 29, 59).unwrap();
    let open = Instant::new(date, 9, 30, 0).unwrap();
    assert_eq!("2023-07-05", TradingDay::latest(early).to_string());
    assert_eq!("2023-07-06", TradingDay::latest(open).to_string());
    let sunday = Instant::new(Date::new(2023, 7, 9).unwrap(), 8, 0, 0).unwrap();
    assert_eq!("2023-07-07", TradingDay::latest(sunday).to_string());
    assert_eq!(&Period::Day, TradingDay::latest(sunday).period());
    assert_eq!("2023-07-07", TradingDay::trading(None, sunday).unwrap().to_string());
    assert_eq!(
        "2023-07-06",
        TradingDay::trading(Some("2023-07-06".to_string()), sunday).unwrap().to_string()
    );
    assert!(TradingDay::trading(Some("nothing".to_string()), sunday).is_err());
    let day = TradingDay::from_str("2023-07-06").unwrap();
    assert!(day.is_now_closed(Instant::new(date, 15, 0, 1).unwrap()));
    assert!(!day.is_now_closed(Instant::new(date, 15, 0, 0).unwrap()));
}

#[test]
fn snapping_in_a_direction() {
    let saturday = Instant::new(Date::new(2023, 7, 8).unwrap(), 11, 0, 0).unwrap();
    assert_eq!("2023-07-07 11:00:00", to_trading_day(saturday, Ordering::Less).to_text());
    assert_eq!("2023-07-10 11:00:00", to_trading_day(saturday, Ordering::Greater).to_text());
    let thursday = Instant::new(Date::new(2023, 7, 6).unwrap(), 11, 0, 0).unwrap();
    assert_eq!(thursday, to_trading_day(thursday, Ordering::Equal));
    assert_eq!(thursday, to_trading_day(thursday, Ordering::Less));
    assert_eq!(thursday, to_trading_day(thursday, Ordering::Greater));
}

#[test]
fn formatting_by_pattern() {
    let day = TradingDay::from_str("2023-07-06 10:42").unwrap();
    assert_eq!(Some("2023-07".to_string()), day.format(trading::MONTH_FORMAT));
    assert_eq!(Some("2023-07-06".to_string()), day.format(trading::FORMAT));
    assert_eq!(Some("2023-07-06 10:42:00".to_string()), day.format(trading::FULL_FORMAT));
    assert_eq!(Some("10h42".to_string()), day.format("%Hh%M"));
    assert_eq!(None, day.format("%"));
}

#[test]
fn labels_of_a_span() {
    let a = TradingDay::from_str("2023-07-10").unwrap();
    let b = TradingDay::from_str("2023-07-06").unwrap();
    assert_eq!(vec![a, b], a.label(&b));
    assert_eq!(vec![a, a], a.label(&a));
}

#[test]
fn week_cursor_of_any_period() {
    let minute = TradingDay::from_str("2023-07-06 14:30").unwrap();
    let week = minute.with_period(Period::Week);
    assert_eq!("2023-07-03", week.to_string());
    assert_eq!(&Period::Week, week.period());
    let day = minute.with_period(Period::Day);
    assert_eq!("2023-07-06", day.to_string());
    let holiday_monday = TradingDay::from_str("2023-05-04").unwrap().with_period(Period::Week);
    assert_eq!("2023-05-01", holiday_monday.to_string());
}

#[test]
fn days_follow_each_other_through_the_calendar() {
    let mut date = Date::new(1899, 12, 25).unwrap();
    let end = Date::new(2101, 3, 5).unwrap();
    let start = date;
    let mut steps: u64 = 0;
    while date != end {
        let next = date.next_day().unwrap();
        assert_eq!(date.day_count() + 1, next.day_count(), "{}", next.to_text());
        assert_eq!((date.weekday_index() + 1) % 7, next.weekday_index(), "{}", next.to_text());
        assert_eq!(Some(date), next.prev_day());
        assert!(date.is_before(&next));
        if next.day() == 1 {
            assert_eq!(date, date.last_of_month());
            assert_eq!(next, next.first_of_month());
        } else {
            assert_eq!(date.day() + 1, next.day());
            assert_eq!(date.month(), next.month());
            assert_eq!(date.year(), next.year());
        }
        date = next;
        steps += 1;
        if steps % 97 == 0 {
            assert_eq!(Some(date), start.add_days(steps));
            assert_eq!(Some(start), date.sub_days(steps));
        }
    }
    assert_eq!(693_961, Date::new(1901, 1, 1).unwrap().day_count());
    assert_eq!(1, Date::new(1901, 1, 1).unwrap().weekday_index());
    assert_eq!(5, Date::new(2000, 1, 1).unwrap().weekday_index());
    assert_eq!(None, Date::max().next_day());
    assert_eq!(None, Date::min().prev_day());
}

#[test]
fn seconds_carry_into_days() {
    let at = Instant::new(Date::new(2023, 12, 31).unwrap(), 23, 59, 59).unwrap();
    assert_eq!("2024-01-01 00:00:00", at.add_seconds(1).unwrap().to_text());
    assert_eq!("2024-01-02 00:00:01", at.add_seconds(86_402).unwrap().to_text());
    assert_eq!("2023-12-31 23:59:59", at.add_seconds(0).unwrap().to_text());
    assert_eq!("2023-12-31 00:00:00", at.sub_seconds(86_399).unwrap().to_text());
    assert_eq!("2023-12-30 23:59:59", at.sub_seconds(86_400).unwrap().to_text());
    assert_eq!("2023-12-30 23:59:58", at.sub_seconds(86_401).unwrap().to_text());
    let last = Instant::new(Date::max(), 23, 59, 59).unwrap();
    assert!(last.add_seconds(1).is_none());
    assert_eq!(Some(last), last.add_seconds(0));
    let first = Instant::midnight(Date::min());
    assert!(first.sub_seconds(1).is_none());
    assert_eq!(Some(first), first.sub_seconds(0));
    assert_eq!("0001-01-01 00:00:01", first.add_seconds(1).unwrap().to_text());
    assert!(first.add_seconds(u64::MAX).is_none());
    assert!(last.sub_seconds(u64::MAX).is_none());
}
