use trading::{
    join_sessions, link_bars, merge_adjacent_bars, week_chart, Bar, Chart, DataIntegrityError,
    Period, TradingDay,
};

fn bar(date: &str, open: u64, high: u64, low: u64, close: u64, volume: u64) -> Bar {
    let mut bar = Bar::new(date);
    bar.open = open;
    bar.high = high;
    bar.low = low;
    bar.close = close;
    bar.volume = volume;
    bar
}

fn week() -> Vec<Bar> {
    vec![
        bar("2023-07-03", 100, 110, 95, 105, 1000),
        bar("2023-07-04", 105, 120, 101, 118, 2000),
        bar("2023-07-05", 118, 119, 90, 92, 1500),
        bar("2023-07-06", 92, 99, 91, 98, 500),
        bar("2023-07-07", 98, 108, 97, 107, 3000),
    ]
}

fn dates(chart: &Chart) -> Vec<String> {
    chart.items().iter().map(|b| b.date.clone()).collect()
}

fn fields(bar: &Bar) -> (String, u64, u64, u64, u64, u64, u64) {
    (bar.date.clone(), bar.open, bar.high, bar.low, bar.close, bar.volume, bar.yesterday)
}

#[test]
fn a_full_week_becomes_one_bar() {
    let chart = week_chart(week(), None).unwrap();
    assert_eq!(1, chart.len());
    assert_eq!(&Period::Week, chart.period());
    let bar = chart.get(0).unwrap();
    assert_eq!(("2023-07-03".to_string(), 100, 120, 90, 107, 8000, 0), fields(bar));
}

#[test]
fn weeks_are_kept_apart_and_limited() {
    let mut days = week();
    days.push(bar("2023-07-10", 107, 111, 106, 110, 700));
    days.push(bar("2023-07-11", 110, 130, 109, 125, 300));
    days.push(bar("2023-07-17", 125, 126, 80, 81, 50));
    let chart = week_chart(days.clone(), None).unwrap();
    assert_eq!(vec!["2023-07-03", "2023-07-10", "2023-07-17"], dates(&chart));
    assert_eq!(
        ("2023-07-10".to_string(), 107, 130, 106, 125, 1000, 0),
        fields(chart.get(1).unwrap())
    );
    let chart = week_chart(days.clone(), Some(2)).unwrap();
    assert_eq!(vec!["2023-07-10", "2023-07-17"], dates(&chart));
    let chart = week_chart(days.clone(), Some(0)).unwrap();
    assert!(chart.is_empty());
    let chart = week_chart(days.clone(), Some(7)).unwrap();
    assert_eq!(3, chart.len());
    assert!(week_chart(vec![], None).unwrap().is_empty());
    days.push(bar("no date", 1, 1, 1, 1, 1));
    assert!(week_chart(days, None).is_err());
}

#[test]
fn a_week_starts_on_monday_even_on_a_holiday() {
    // 2023-05-01 to 2023-05-03 are holidays: the week of 2023-05-04 is still dated on Monday
    let days = vec![bar("2023-05-04", 5, 6, 4, 5, 10), bar("2023-05-05", 5, 9, 5, 8, 20)];
    let chart = week_chart(days, None).unwrap();
    assert_eq!(vec!["2023-05-01"], dates(&chart));
    assert_eq!("2023-07-03", trading::resample::week_key("2023-07-06").unwrap());
    assert_eq!("2023-07-03", trading::resample::week_key("2023-07-09").unwrap());
    assert_eq!("2023-07-03", trading::resample::week_key("2023-07-06 10:30").unwrap());
    assert!(trading::resample::week_key("2023-07-40").is_err());
}

#[test]
fn merging_keeps_open_and_takes_the_later_close() {
    let mut first = bar("2023-07-03", 100, 110, 95, 105, 1000);
    first.yesterday = 99;
    let mut second = bar("2023-07-04", 105, 108, 80, 85, 2000);
    second.yesterday = 105;
    first.merge(second);
    assert_eq!(("2023-07-03".to_string(), 100, 110, 80, 85, 3000, 99), fields(&first));
    let merged = merge_adjacent_bars(vec![
        bar("a", 1, 2, 1, 2, 1),
        bar("a", 2, 5, 2, 4, 2),
        bar("b", 4, 4, 3, 3, 3),
        bar("a", 3, 3, 1, 1, 4),
        bar("a", 1, 9, 1, 9, 5),
    ]);
    let got: Vec<(String, u64, u64, u64, u64, u64, u64)> = merged.iter().map(fields).collect();
    assert_eq!(
        vec![
            ("a".to_string(), 1, 5, 1, 4, 3, 0),
            ("b".to_string(), 4, 4, 3, 3, 3, 0),
            ("a".to_string(), 3, 9, 1, 9, 9, 0),
        ],
        got
    );
}

#[test]
fn bars_are_told_apart_by_date() {
    let a = bar("2023-07-03", 100, 110, 95, 105, 1000);
    let b = bar("2023-07-03", 1, 1, 1, 1, 1);
    let c = bar("2023-07-04", 100, 110, 95, 105, 1000);
    assert!(a == b);
    assert!(a != c);
    assert!(a.is_ok());
    assert!(!Bar::new("2023-07-03").is_ok());
    assert!(!bar("x", 1, 1, 0, 1, 1).is_ok());
    assert!(a.red());
    assert!(!a.green());
    assert!(bar("x", 5, 5, 4, 4, 1).green());
    assert!(bar("x", 5, 5, 4, 5, 1).red());
    assert_eq!(fields(&a), fields(&a.clone()));
    assert_eq!(("".to_string(), 0, 0, 0, 0, 0, 0), fields(&Bar::default()));
}

#[test]
fn truncating_at_a_date() {
    let mut chart = Chart::new(week());
    assert!(chart.is_sorted());
    assert!(chart.limit("2023-07-08").is_none());
    assert_eq!(
        vec!["2023-07-03", "2023-07-04", "2023-07-05", "2023-07-06", "2023-07-07"],
        dates(&chart)
    );
    let before: Vec<(String, u64, u64, u64, u64, u64, u64)> =
        Chart::new(week()).items().iter().map(fields).collect();
    let after: Vec<(String, u64, u64, u64, u64, u64, u64)> =
        chart.items().iter().map(fields).collect();
    assert_eq!(before, after);
    let removed = chart.limit("2023-07-05").unwrap();
    assert_eq!(("2023-07-05".to_string(), 118, 119, 90, 92, 1500, 0), fields(&removed));
    assert_eq!(vec!["2023-07-03", "2023-07-04"], dates(&chart));
    let removed = chart.limit("2023-07-03").unwrap();
    assert_eq!("2023-07-03", removed.date);
    assert!(chart.is_empty());
    assert!(chart.limit("2023-07-03").is_none());
}

#[test]
fn skipping_to_a_date_and_keeping_the_last() {
    let mut chart = Chart::new(week());
    chart.offset("2023-07-02");
    assert_eq!(5, chart.len());
    chart.offset("2023-07-05");
    assert_eq!(vec!["2023-07-05", "2023-07-06", "2023-07-07"], dates(&chart));
    chart.length(5);
    assert_eq!(3, chart.len());
    chart.length(2);
    assert_eq!(vec!["2023-07-06", "2023-07-07"], dates(&chart));
    chart.length(0);
    assert!(chart.is_empty());
}

#[test]
fn searching_and_replacing() {
    let mut chart = Chart::with_period(week(), Period::Day);
    assert_eq!(98, chart.search("2023-07-06").unwrap().close);
    assert_eq!(105, chart.search("2023-07-03").unwrap().close);
    assert_eq!(107, chart.search("2023-07-07").unwrap().close);
    assert!(chart.search("2023-07-08").is_none());
    assert!(chart.search("2023-07-02").is_none());
    assert!(chart.search("2023-07-05 ").is_none());
    assert_eq!(Some(3), chart.position("2023-07-06"));
    chart.replace_last(bar("2023-07-07", 98, 109, 97, 109, 3100));
    assert_eq!(5, chart.len());
    assert_eq!(109, chart.search("2023-07-07").unwrap().close);
    chart.push(bar("2023-07-10", 1, 1, 1, 1, 1));
    assert_eq!(6, chart.len());
    let mut empty = Chart::default();
    assert_eq!(&Period::Day, empty.period());
    assert!(empty.search("2023-07-07").is_none());
    empty.replace_last(bar("2023-07-07", 1, 1, 1, 1, 1));
    assert_eq!(1, empty.len());
    assert!(empty.get(1).is_none());
    assert_eq!(1, empty.clone().value().len());
    let unsorted = Chart::new(vec![bar("b", 1, 1, 1, 1, 1), bar("a", 1, 1, 1, 1, 1)]);
    assert!(!unsorted.is_sorted());
    let twice = Chart::new(vec![bar("a", 1, 1, 1, 1, 1), bar("a", 1, 1, 1, 1, 1)]);
    assert!(!twice.is_sorted());
}

#[test]
fn records_are_linked_by_their_closes() {
    let linked = link_bars(vec![
        bar("1", 10, 11, 9, 10, 5),
        bar("2", 0, 11, 9, 10, 5),
        bar("3", 10, 12, 10, 12, 5),
        bar("4", 12, 12, 11, 0, 5),
        bar("5", 12, 13, 12, 13, 5),
    ]);
    let got: Vec<(String, u64)> = linked.iter().map(|b| (b.date.clone(), b.yesterday)).collect();
    assert_eq!(vec![("1".to_string(), 0), ("3".to_string(), 10), ("5".to_string(), 12)], got);
}

#[test]
fn sessions_are_joined_unless_one_is_missing_in_between() {
    let a = || vec![bar("2023-07-06 09:35:00", 1, 1, 1, 1, 1)];
    let b = || vec![bar("2023-07-07 09:35:00", 2, 2, 2, 2, 2), bar("2023-07-07 09:40:00", 3, 3, 3, 3, 3)];
    let joined = join_sessions(&vec![None, Some(a()), Some(b()), None, None]).unwrap();
    assert_eq!(3, joined.len());
    assert_eq!("2023-07-07 09:40:00", joined[2].date);
    assert_eq!(Some(DataIntegrityError), join_sessions(&vec![Some(a()), None, Some(b())]).err());
    assert_eq!(
        Some(DataIntegrityError),
        join_sessions(&vec![None, Some(a()), Some(vec![]), None, None, Some(b())]).err()
    );
    assert!(join_sessions(&vec![None, None]).unwrap().is_empty());
    assert!(join_sessions(&vec![]).unwrap().is_empty());
    assert_eq!(1, join_sessions(&vec![Some(vec![]), None, Some(a())]).unwrap().len());
    assert_eq!(1, join_sessions(&vec![Some(a()), None, Some(vec![])]).unwrap().len());
}

#[test]
fn sessions_to_load_for_minute_bars() {
    assert_eq!(5, trading::resample::session_count(None, 5));
    assert_eq!(5, trading::resample::session_count(None, 30));
    assert_eq!(1, trading::resample::session_count(Some(48), 5));
    assert_eq!(2, trading::resample::session_count(Some(49), 5));
    assert_eq!(0, trading::resample::session_count(Some(0), 5));
    assert_eq!(25, trading::resample::session_count(Some(100), 60));
    let end: TradingDay = "2023-07-10".parse().unwrap();
    let days: Vec<String> =
        trading::resample::sessions_before(&end, 3).iter().map(|d| d.to_string()).collect();
    assert_eq!(vec!["2023-07-06", "2023-07-07", "2023-07-10"], days);
    assert!(trading::resample::sessions_before(&end, 0).is_empty());
    let first: TradingDay = "0001-01-03".parse().unwrap();
    assert_eq!(3, trading::resample::sessions_before(&first, 10).len());
}
