//! Text files of records: one record per line, its fields set apart by one
//! character, under a line of headings.
use crate::error::ParseFailure;
use crate::stock::{sorted_by_symbol, stocks_view, Stock, StockData, Stocks};
use crate::text::push_char;
use vstd::prelude::*;
use vstd::string::*;

verus! {

/// What the strings of `items` hold, one after the other.
pub open spec fn texts_view(items: Seq<String>) -> Seq<Seq<char>> {
    items.map_values(|s: String| s@)
}

/// What the fields of the records of `items` hold.
pub open spec fn records_view(items: Seq<Vec<String>>) -> Seq<Seq<Seq<char>>> {
    items.map_values(|r: Vec<String>| texts_view(r@))
}

/// The pieces of `text` between the places where `sep` stands; `sep` itself
/// belongs to none. A text without `sep` is one piece.
pub open spec fn split_on(text: Seq<char>, sep: char) -> Seq<Seq<char>>
    decreases text.len(),
{
    if text.len() == 0 {
        seq![Seq::empty()]
    } else {
        let head = split_on(text.drop_last(), sep);
        if text.last() == sep {
            head.push(Seq::empty())
        } else {
            head.drop_last().push(head.last().push(text.last()))
        }
    }
}

/// `line` without the carriage return at its end, if it has one.
pub open spec fn without_return(line: Seq<char>) -> Seq<char> {
    if line.len() > 0 && line.last() == '\r' {
        line.drop_last()
    } else {
        line
    }
}

/// The lines of `text`: what stands before each line feed, without the
/// carriage return before it, and what stands after the last one, if
/// anything does.
pub open spec fn lines_of(text: Seq<char>) -> Seq<Seq<char>> {
    let parts = split_on(text, '\n');
    let ended = Seq::new((parts.len() - 1) as nat, |i: int| without_return(parts[i]));
    if parts.last().len() > 0 {
        ended.push(parts.last())
    } else {
        ended
    }
}

/// The lines below the line of headings.
pub open spec fn below_heading(lines: Seq<Seq<char>>) -> Seq<Seq<char>> {
    if lines.len() > 0 {
        lines.skip(1)
    } else {
        lines
    }
}

/// The records of `text`: of the lines below the heading, those that are not
/// empty, each split into its fields at `sep`.
pub open spec fn records_of(text: Seq<char>, sep: char) -> Seq<Seq<Seq<char>>> {
    below_heading(lines_of(text)).filter(|line: Seq<char>| line.len() > 0).map_values(
        |line: Seq<char>| split_on(line, sep),
    )
}

/// The pieces of `text` between the places where `sep` stands.
pub fn split(text: &str, sep: char) -> (r: Vec<String>)
    ensures
        texts_view(r@) == split_on(text@, sep),
        r@.len() >= 1,
{
    let len: usize = text.unicode_len();
    let mut pieces: Vec<String> = Vec::new();
    let mut cur: String = String::new();
    let mut i: usize = 0;
    assert(text@.take(0) =~= Seq::<char>::empty());
    assert(texts_view(pieces@).push(cur@) =~= split_on(text@.take(0), sep));
    while i < len
        invariant
            i <= len,
            len == text@.len(),
            texts_view(pieces@).push(cur@) == split_on(text@.take(i as int), sep),
        decreases len - i,
    {
        let c: char = text.get_char(i);
        let ghost prefix = text@.take(i + 1);
        let ghost head = split_on(text@.take(i as int), sep);
        let ghost done = texts_view(pieces@);
        proof {
            assert(prefix.drop_last() =~= text@.take(i as int));
            assert(prefix.last() == c);
            assert(head.last() == cur@);
            assert(head.drop_last() =~= done);
        }
        if c == sep {
            pieces.push(cur);
            cur = String::new();
            assert(texts_view(pieces@) =~= head);
            assert(texts_view(pieces@).push(cur@) =~= split_on(prefix, sep));
        } else {
            push_char(&mut cur, c);
            assert(done.push(cur@) =~= split_on(prefix, sep));
        }
        i = i + 1;
    }
    assert(text@.take(len as int) =~= text@);
    let ghost done = texts_view(pieces@);
    pieces.push(cur);
    assert(texts_view(pieces@) =~= done.push(cur@));
    pieces
}

/// `line` without the carriage return at its end, if it has one.
pub fn strip_return(line: &str) -> (r: String)
    ensures
        r@ == without_return(line@),
{
    let len: usize = line.unicode_len();
    if len > 0 && line.get_char(len - 1) == '\r' {
        let r = String::from_str(line.substring_char(0, len - 1));
        assert(r@ =~= line@.drop_last());
        r
    } else {
        String::from_str(line)
    }
}

/// The lines of `text`.
pub fn lines(text: &str) -> (r: Vec<String>)
    ensures
        texts_view(r@) == lines_of(text@),
{
    let parts: Vec<String> = split(text, '\n');
    let ghost view = split_on(text@, '\n');
    let n: usize = parts.len();
    let mut out: Vec<String> = Vec::new();
    let mut i: usize = 0;
    while i + 1 < n
        invariant
            n == parts@.len(),
            n >= 1,
            i + 1 <= n,
            view == texts_view(parts@),
            out@.len() == i,
            forall|k: int| 0 <= k < i ==> (#[trigger] out@[k])@ == without_return(view[k]),
        decreases n - i,
    {
        let line: String = strip_return(parts[i].as_str());
        assert(parts@[i as int]@ == view[i as int]);
        out.push(line);
        i = i + 1;
    }
    assert(parts@[n - 1]@ == view[n - 1]);
    if parts[n - 1].as_str().unicode_len() > 0 {
        out.push(parts[n - 1].clone());
    }
    assert(texts_view(out@) =~= lines_of(text@));
    out
}

/// The records of `text`.
pub fn records(text: &str, sep: char) -> (r: Vec<Vec<String>>)
    ensures
        records_view(r@) == records_of(text@, sep),
{
    let all: Vec<String> = lines(text);
    let ghost view = texts_view(all@);
    let ghost body = below_heading(view);
    let ghost full = |line: Seq<char>| line.len() > 0;
    let ghost cut = |line: Seq<char>| split_on(line, sep);
    let mut out: Vec<Vec<String>> = Vec::new();
    let mut i: usize = 1;
    if all.len() == 0 {
        assert(body.filter(full) =~= Seq::<Seq<char>>::empty()) by {
            reveal_with_fuel(Seq::filter, 2);
        }
        assert(records_view(out@) =~= records_of(text@, sep));
        return out;
    }
    assert(body.take(0) =~= Seq::<Seq<char>>::empty());
    assert(records_view(out@) =~= body.take(0).filter(full).map_values(cut)) by {
        reveal_with_fuel(Seq::filter, 2);
    }
    while i < all.len()
        invariant
            1 <= i <= all.len(),
            view == texts_view(all@),
            body == view.skip(1),
            full == (|line: Seq<char>| line.len() > 0),
            cut == (|line: Seq<char>| split_on(line, sep)),
            records_view(out@) == body.take(i - 1).filter(full).map_values(cut),
        decreases all.len() - i,
    {
        let line: &str = all[i].as_str();
        let ghost before = records_view(out@);
        proof {
            assert(line@ == body[i - 1]);
            assert(body.take(i as int) =~= body.take(i - 1).push(line@));
            body.take(i - 1).lemma_filter_push(line@, full);
        }
        if line.unicode_len() > 0 {
            let fields: Vec<String> = split(line, sep);
            out.push(fields);
            assert(records_view(out@) =~= before.push(split_on(line@, sep)));
            assert(records_view(out@) =~= body.take(i as int).filter(full).map_values(cut));
        }
        i = i + 1;
    }
    assert(body.take(all.len() - 1) =~= body);
    out
}

/// The stock that a line of the list of stocks names: its symbol before the
/// first tab, its name after it; none where the line has no tab.
pub open spec fn stock_of_line(line: Seq<char>) -> Option<StockData> {
    let fields = split_on(line, '\t');
    if fields.len() >= 2 {
        Some(StockData { symbol: fields[0], name: fields[1] })
    } else {
        None
    }
}

/// Whether every line of `lines` names a stock.
pub open spec fn lines_name_stocks(lines: Seq<Seq<char>>) -> bool {
    forall|i: int| 0 <= i < lines.len() ==> stock_of_line(#[trigger] lines[i]) is Some
}

/// The stocks that the lines of `lines` name, in their order.
pub open spec fn stocks_of_lines(lines: Seq<Seq<char>>) -> Seq<StockData> {
    Seq::new(lines.len(), |i: int| stock_of_line(lines[i])->0)
}

/// The list of stocks that `content` holds: one stock per line below the
/// heading, symbol and name set apart by a tab, in the order of the symbols.
/// Fails where a line has no name.
pub fn parse_stocks_data(content: &str) -> (r: Result<Stocks, ParseFailure>)
    ensures
        r is Ok <==> lines_name_stocks(below_heading(lines_of(content@))),
        r matches Ok(stocks) ==> stocks@ == sorted_by_symbol(
            stocks_of_lines(below_heading(lines_of(content@))),
        ),
{
    let all: Vec<String> = lines(content);
    let ghost view = texts_view(all@);
    let ghost body = below_heading(view);
    let mut out: Vec<Stock> = Vec::new();
    let mut i: usize = 1;
    if all.len() == 0 {
        assert(stocks_view(out@) =~= stocks_of_lines(body));
        return Ok(Stocks::new(out).sorted());
    }
    while i < all.len()
        invariant
            1 <= i <= all.len(),
            view == texts_view(all@),
            body == view.skip(1),
            view == lines_of(content@),
            out@.len() == i - 1,
            forall|k: int| 0 <= k < i - 1 ==> stock_of_line(#[trigger] body[k]) is Some,
            forall|k: int| 0 <= k < i - 1 ==> (#[trigger] out@[k])@ == stock_of_line(body[k])->0,
        decreases all.len() - i,
    {
        let line: &str = all[i].as_str();
        assert(line@ == body[i - 1]);
        let fields: Vec<String> = split(line, '\t');
        if fields.len() < 2 {
            assert(stock_of_line(body[i - 1]) is None);
            return Err(ParseFailure);
        }
        let stock: Stock = Stock::new(fields[1].as_str(), fields[0].as_str());
        assert(fields@[0]@ == texts_view(fields@)[0]);
        assert(fields@[1]@ == texts_view(fields@)[1]);
        out.push(stock);
        i = i + 1;
    }
    assert(stocks_view(out@) =~= stocks_of_lines(body));
    Ok(Stocks::new(out).sorted())
}

/// The heading of the list of stocks.
pub open spec fn stocks_heading() -> Seq<char> {
    "股票代码,股票名称"@
}

/// The text of a list of stocks: the heading, and below it one line per
/// stock with symbol and name set apart by a comma.
pub open spec fn stocks_text(stocks: Seq<StockData>) -> Seq<char>
    decreases stocks.len(),
{
    if stocks.len() == 0 {
        stocks_heading()
    } else {
        stocks_text(stocks.drop_last()) + seq!['\n'] + stocks.last().symbol + seq![','] + stocks.last().name
    }
}

/// The text of the list `stocks`, as it is kept in a file.
pub fn write_stocks_text(stocks: &Stocks) -> (r: String)
    ensures
        r@ == stocks_text(stocks@),
{
    proof {
        reveal_strlit("\n");
        reveal_strlit(",");
    }
    let mut content: String = String::from_str("股票代码,股票名称");
    let mut i: usize = 0;
    assert(stocks@.take(0) =~= Seq::<StockData>::empty());
    while i < stocks.0.len()
        invariant
            i <= stocks.0.len(),
            content@ == stocks_text(stocks@.take(i as int)),
        decreases stocks.0.len() - i,
    {
        let ghost before = content@;
        let ghost prefix = stocks@.take(i + 1);
        proof {
            reveal_strlit("\n");
            reveal_strlit(",");
            assert(prefix.drop_last() =~= stocks@.take(i as int));
            assert(prefix.last() == stocks.0@[i as int]@);
        }
        content.append("\n");
        content.append(stocks.0[i].symbol.as_str());
        content.append(",");
        content.append(stocks.0[i].name.as_str());
        assert(content@ =~= before + seq!['\n'] + prefix.last().symbol + seq![','] + prefix.last().name);
        i = i + 1;
    }
    assert(stocks@.take(stocks.0.len() as int) =~= stocks@);
    content
}

} // verus!
