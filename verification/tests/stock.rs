use trading::{ChartParamter, GetSymbolCode, Period, Stock, Stocks, ValueIndex};

#[test]
fn test_filter() {
    let stocks = Stocks::new(vec![
        Stock::new("国机通用", "600444"),
        Stock::new("国电电力", "600795"),
        Stock::new("中国中免", "601888"),
    ]);
    let f = stocks.search("国机");
    assert_eq!(f.len(), 1);
    assert_eq!(f[0].symbol, "600444");

    let f = stocks.search("国电");
    assert_eq!(f.len(), 1);
    assert_eq!(f[0].symbol, "600795");

    let f = stocks.search("国");
    assert_eq!(f.len(), 3);
    assert_eq!(f[0].symbol, "600444");
    assert_eq!(f[1].symbol, "600795");
    assert_eq!(f[2].symbol, "601888");

    let f = stocks.search("60");
    assert_eq!(f.len(), 3);

    let r = stocks.random();
    assert!(r.is_some());

    let stocks = stocks.filter(Some("国机".to_string()));
    assert_eq!(stocks.len(), 1);
}

#[test]
fn stocks_sort_by_symbol_and_keep_ties_in_order() {
    let stocks = Stocks::new(vec![
        Stock::new("c", "601888"),
        Stock::new("first", "600444"),
        Stock::new("b", "600795"),
        Stock::new("second", "600444"),
        Stock::new("a", "000001"),
    ])
    .sorted();
    let names: Vec<&str> = stocks.0.iter().map(|s| s.name.as_str()).collect();
    assert_eq!(names, vec!["a", "first", "second", "b", "c"]);
    assert_eq!(0, Stocks::new(vec![]).sorted().len());
}

#[test]
fn filter_without_text_keeps_all() {
    let stocks = Stocks::new(vec![Stock::new("国机通用", "600444"), Stock::new("b", "600795")]);
    assert_eq!(2, stocks.clone().filter(None).len());
    assert_eq!(0, stocks.clone().filter(Some("zzz".to_string())).len());
    assert_eq!(2, stocks.clone().filter(Some("".to_string())).len());
    assert_eq!(1, stocks.search("0795").len());
    assert!(Stocks::new(vec![]).random().is_none());
    let only = Stocks::new(vec![Stock::new("b", "600795")]);
    assert_eq!("600795", only.random().unwrap().symbol);
    assert_eq!(1, only.value().len());
}

#[test]
fn names_are_padded_by_their_length() {
    assert_eq!("国机通用", Stock::test().petty_display_name());
    assert_eq!("600444", Stock::test().symbol);
    assert_eq!("[600444]国机通用", Stock::test().to_string());
    assert_eq!("国机通\u{3000}", Stock::new("国机通", "1").petty_display_name());
    assert_eq!("国机\u{3000}\u{3000}", Stock::new("国机", "1").petty_display_name());
    assert_eq!(" 深圳吧A", Stock::new("深圳吧A", "1").petty_display_name());
    assert_eq!(" 三个字AB", Stock::new("三个字AB", "1").petty_display_name());
    assert_eq!("三个AB", Stock::new("三个AB", "1").petty_display_name());
    assert_eq!("国机A  ", Stock::new("国机A", "1").petty_display_name());
    assert_eq!("abc", Stock::new("abc", "1").petty_display_name());
}

#[test]
fn symbols_of_stocks_and_strings() {
    let stock = Stock::test();
    assert_eq!("600444", stock.symbol());
    assert_eq!("600444", (&stock).symbol());
    assert_eq!("601888", "601888".symbol());
    assert_eq!("601888", "601888".to_string().symbol());
}

#[test]
fn chart_requests_are_built_step_by_step() {
    let param = ChartParamter::day("601888").limit(2).end("2023-07-12".to_string());
    assert_eq!(Period::Day, param.period);
    assert_eq!("601888", param.symbol);
    assert_eq!(Some(2), param.limit);
    assert_eq!(Some("2023-07-12".to_string()), param.end);
    let param = ChartParamter::new(Stock::test(), Period::Minute(30));
    assert_eq!(Period::Minute(30), param.period);
    assert_eq!("600444", param.symbol);
    assert_eq!(None, param.limit);
    assert_eq!(None, param.end);
    let (days, limit) = ChartParamter::new("601888", Period::Week)
        .limit(3)
        .end("2023-07-12".to_string())
        .week_days()
        .unwrap();
    assert_eq!(Some(3), limit);
    assert_eq!(None, days.limit);
    assert_eq!(Some("2023-07-16".to_string()), days.end);
    assert!(ChartParamter::day("601888").end("never".to_string()).week_days().is_err());
    assert!(ChartParamter::day("601888").end("9999-12-31".to_string()).week_days().is_err());
    let (days, limit) = ChartParamter::day("601888").week_days().unwrap();
    assert_eq!(None, days.end);
    assert_eq!(None, limit);
}

#[test]
fn value_index_picks_its_place() {
    let index = ValueIndex::new("DEA".to_string(), 1);
    assert_eq!("DEA", index.name);
    assert_eq!(&2.5, index.pick(&vec![1.5, 2.5, 3.5]));
}

#[test]
fn lists_of_stocks_are_read_and_written() {
    let content = "symbol\tname\n600795\t国电电力\r\n600444\t国机通用\textra\n601888\t中国中免";
    let stocks = trading::records::parse_stocks_data(content).unwrap();
    let got: Vec<(&str, &str)> =
        stocks.0.iter().map(|s| (s.symbol.as_str(), s.name.as_str())).collect();
    assert_eq!(
        vec![("600444", "国机通用"), ("600795", "国电电力"), ("601888", "中国中免")],
        got
    );
    assert!(trading::records::parse_stocks_data("head\n600444").is_err());
    assert!(trading::records::parse_stocks_data("head\n600444\tname\n\n").is_err());
    assert_eq!(0, trading::records::parse_stocks_data("").unwrap().len());
    assert_eq!(0, trading::records::parse_stocks_data("only a heading\n").unwrap().len());
    assert_eq!(
        "股票代码,股票名称\n600444,国机通用\n600795,国电电力\n601888,中国中免",
        trading::records::write_stocks_text(&stocks)
    );
    assert_eq!("股票代码,股票名称", trading::records::write_stocks_text(&Stocks::new(vec![])));
}

#[test]
fn records_are_lines_split_into_fields() {
    assert_eq!(vec!["a", "", "b"], trading::records::split("a,,b", ','));
    assert_eq!(vec![""], trading::records::split("", ','));
    assert_eq!(vec!["", ""], trading::records::split(",", ','));
    assert_eq!(vec!["a", "b", "c\r"], trading::records::lines("a\r\nb\nc\r"));
    assert_eq!(vec!["a", ""], trading::records::lines("a\n\n"));
    assert_eq!(Vec::<String>::new(), trading::records::lines(""));
    assert_eq!(vec![""], trading::records::lines("\n"));
    assert_eq!("a\rb", trading::records::strip_return("a\rb\r"));
    let records = trading::records::records("date,open\n2023-07-06,1.5\n\n2023-07-07,2\r\n", ',');
    assert_eq!(vec![vec!["2023-07-06", "1.5"], vec!["2023-07-07", "2"]], records);
    assert!(trading::records::records("", ',').is_empty());
    assert!(trading::records::records("heading", ',').is_empty());
}
