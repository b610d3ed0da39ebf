//! Stocks by symbol and name, and lists of them.
use crate::text::{lemma_lex_le_total, lemma_lex_le_trans, lex_le, text_le};
use vstd::prelude::*;
use vstd::string::*;

verus! {

/// What has a stock symbol.
pub trait GetSymbolCode {
    /// The symbol, as text.
    spec fn symbol_text(&self) -> Seq<char>;

    fn symbol(&self) -> (r: &str)
        ensures
            r@ == self.symbol_text(),
    ;
}

/// What a stock holds, as plain values.
pub struct StockData {
    pub symbol: Seq<char>,
    pub name: Seq<char>,
}

/// A stock: its symbol and its name.
#[derive(Debug, PartialEq, Eq, PartialOrd, Ord)]
pub struct Stock {
    pub symbol: String,
    pub name: String,
}

impl View for Stock {
    type V = StockData;

    open spec fn view(&self) -> StockData {
        StockData { symbol: self.symbol@, name: self.name@ }
    }
}

impl Clone for Stock {
    fn clone(&self) -> (r: Stock)
        ensures
            r@ == self@,
    {
        Stock { symbol: self.symbol.clone(), name: self.name.clone() }
    }
}

impl GetSymbolCode for Stock {
    open spec fn symbol_text(&self) -> Seq<char> {
        self.symbol@
    }

    fn symbol(&self) -> (r: &str) {
        self.symbol.as_str()
    }
}

impl GetSymbolCode for String {
    open spec fn symbol_text(&self) -> Seq<char> {
        self@
    }

    fn symbol(&self) -> (r: &str) {
        self.as_str()
    }
}

impl GetSymbolCode for &str {
    open spec fn symbol_text(&self) -> Seq<char> {
        self@
    }

    fn symbol(&self) -> (r: &str) {
        self
    }
}

impl<T: GetSymbolCode> GetSymbolCode for &T {
    open spec fn symbol_text(&self) -> Seq<char> {
        (*self).symbol_text()
    }

    fn symbol(&self) -> (r: &str) {
        (*self).symbol()
    }
}

/// Whether `needle` stands somewhere in `text`.
pub open spec fn contains_text(text: Seq<char>, needle: Seq<char>) -> bool {
    exists|i: int|
        0 <= i <= text.len() - needle.len() && #[trigger] text.subrange(i, i + needle.len())
            == needle
}

/// Whether `filter` stands in the symbol or in the name of `stock`.
pub open spec fn stock_matches(stock: StockData, filter: Seq<char>) -> bool {
    contains_text(stock.symbol, filter) || contains_text(stock.name, filter)
}

/// The name padded to the width that names of four wide characters take.
pub open spec fn padded_name(name: Seq<char>, bytes: nat) -> Seq<char> {
    if bytes == 10 || bytes == 11 {
        seq![' '] + name
    } else if bytes == 9 {
        name + seq!['\u{3000}']
    } else if bytes == 7 {
        name + seq![' ', ' ']
    } else if bytes == 6 {
        name + seq!['\u{3000}', '\u{3000}']
    } else {
        name
    }
}

/// The length of `name` in bytes, as the machine counts it.
pub open spec fn name_bytes(name: Seq<char>) -> nat {
    (vstd::utf8::encode_utf8(name).len() as usize) as nat
}

/// `str::contains` of the standard library, for a string pattern: whether the
/// pattern matches a part of the text.
#[verifier::external_body]
pub(crate) fn text_contains(text: &str, needle: &str) -> (r: bool)
    ensures
        r == contains_text(text@, needle@),
{
    text.contains(needle)
}

/// `fastrand::usize` on the range from 0 up to, not including, `bound`: some
/// number of that range, not the same from call to call.
#[verifier::external_body]
pub(crate) fn random_below(bound: usize) -> (r: usize)
    requires
        bound > 0,
    ensures
        r < bound,
{
    fastrand::usize(0..bound)
}

impl Stock {
    /// The stock named `name` with symbol `symbol`.
    pub fn new(name: &str, symbol: &str) -> (r: Stock)
        ensures
            r@ == (StockData { symbol: symbol@, name: name@ }),
    {
        Stock { symbol: String::from_str(symbol), name: String::from_str(name) }
    }

    /// A stock to try things with.
    pub fn test() -> (r: Stock)
        ensures
            r@ == (StockData { symbol: "600444"@, name: "国机通用"@ }),
    {
        Stock::new("国机通用", "600444")
    }

    /// The name, padded by its length in bytes so that names line up in a list.
    pub fn petty_display_name(&self) -> (r: String)
        ensures
            r@ == padded_name(self.name@, name_bytes(self.name@)),
    {
        proof {
            reveal_strlit(" ");
            reveal_strlit("\u{3000}");
            reveal_strlit("  ");
            reveal_strlit("\u{3000}\u{3000}");
        }
        let bytes: usize = self.name.as_str().len();
        if bytes == 10 || bytes == 11 {
            let r = String::from_str(" ").concat(self.name.as_str());
            assert(r@ =~= seq![' '] + self.name@);
            r
        } else if bytes == 9 {
            let r = self.name.clone().concat("\u{3000}");
            assert(r@ =~= self.name@ + seq!['\u{3000}']);
            r
        } else if bytes == 7 {
            let r = self.name.clone().concat("  ");
            assert(r@ =~= self.name@ + seq![' ', ' ']);
            r
        } else if bytes == 6 {
            let r = self.name.clone().concat("\u{3000}\u{3000}");
            assert(r@ =~= self.name@ + seq!['\u{3000}', '\u{3000}']);
            r
        } else {
            self.name.clone()
        }
    }

    /// The symbol in square brackets and the padded name.
    pub fn to_string(&self) -> (r: String)
        ensures
            r@ == seq!['['] + self.symbol@ + seq![']'] + padded_name(
                self.name@,
                name_bytes(self.name@),
            ),
    {
        proof {
            reveal_strlit("[");
            reveal_strlit("]");
        }
        let shown: String = self.petty_display_name();
        let r = String::from_str("[").concat(self.symbol.as_str()).concat("]").concat(
            shown.as_str(),
        );
        assert(r@ =~= seq!['['] + self.symbol@ + seq![']'] + shown@);
        r
    }

    /// Whether `filter` stands in the symbol or in the name.
    pub fn matches(&self, filter: &str) -> (r: bool)
        ensures
            r == stock_matches(self@, filter@),
    {
        text_contains(self.symbol.as_str(), filter) || text_contains(self.name.as_str(), filter)
    }
}

/// What the stocks of `stocks` hold, one after the other.
pub open spec fn stocks_view(stocks: Seq<Stock>) -> Seq<StockData> {
    stocks.map_values(|s: Stock| s@)
}

/// What the references of `stocks` point at, as plain values.
pub open spec fn stock_refs_view(stocks: Seq<&Stock>) -> Seq<StockData> {
    stocks.map_values(|s: &Stock| s@)
}

/// Where `item` goes into `sorted`: behind the last stock whose symbol does
/// not come after its own.
pub open spec fn place_for(sorted: Seq<StockData>, item: StockData) -> int
    decreases sorted.len(),
{
    if sorted.len() == 0 {
        0
    } else if lex_le(sorted.last().symbol, item.symbol) {
        sorted.len() as int
    } else {
        place_for(sorted.drop_last(), item)
    }
}

/// `items` in the order of their symbols; stocks of one symbol stay in the
/// order in which they stood.
pub open spec fn sorted_by_symbol(items: Seq<StockData>) -> Seq<StockData>
    decreases items.len(),
{
    if items.len() == 0 {
        Seq::empty()
    } else {
        let head = sorted_by_symbol(items.drop_last());
        head.insert(place_for(head, items.last()), items.last())
    }
}

/// Whether the symbols of `items` ascend.
pub open spec fn symbols_ascend(items: Seq<StockData>) -> bool {
    forall|i: int, j: int| 0 <= i < j < items.len() ==> lex_le(items[i].symbol, items[j].symbol)
}

/// The place for a stock lies within the list; in a list of ascending
/// symbols no symbol before it comes after the stock's, and all from it on do.
pub proof fn lemma_place_for(sorted: Seq<StockData>, item: StockData)
    ensures
        0 <= place_for(sorted, item) <= sorted.len(),
        symbols_ascend(sorted) ==> forall|k: int|
            0 <= k < place_for(sorted, item) ==> lex_le(#[trigger] sorted[k].symbol, item.symbol),
        forall|k: int|
            place_for(sorted, item) <= k < sorted.len() ==> !lex_le(
                #[trigger] sorted[k].symbol,
                item.symbol,
            ),
    decreases sorted.len(),
{
    if sorted.len() > 0 {
        let head = sorted.drop_last();
        lemma_place_for(head, item);
        if lex_le(sorted.last().symbol, item.symbol) {
            if symbols_ascend(sorted) {
                assert forall|k: int| 0 <= k < sorted.len() implies lex_le(
                    #[trigger] sorted[k].symbol,
                    item.symbol,
                ) by {
                    if k < sorted.len() - 1 {
                        assert(lex_le(sorted[k].symbol, sorted[sorted.len() - 1].symbol));
                        lemma_lex_le_trans(sorted[k].symbol, sorted.last().symbol, item.symbol);
                    }
                }
            }
        } else {
            if symbols_ascend(sorted) {
                assert forall|i: int, j: int| 0 <= i < j < head.len() implies lex_le(
                    head[i].symbol,
                    head[j].symbol,
                ) by {
                    assert(lex_le(sorted[i].symbol, sorted[j].symbol));
                }
            }
            assert forall|k: int| place_for(sorted, item) <= k < sorted.len() implies !lex_le(
                #[trigger] sorted[k].symbol,
                item.symbol,
            ) by {
                if k < head.len() {
                    assert(sorted[k] == head[k]);
                }
            }
            assert forall|k: int| 0 <= k < place_for(sorted, item) implies sorted[k] == head[k] by {}
        }
    }
}

/// The sorted list has ascending symbols and holds each stock as often as
/// the list it was made of.
pub proof fn lemma_sorted_by_symbol(items: Seq<StockData>)
    ensures
        symbols_ascend(sorted_by_symbol(items)),
        sorted_by_symbol(items).to_multiset() == items.to_multiset(),
        sorted_by_symbol(items).len() == items.len(),
    decreases items.len(),
{
    broadcast use vstd::seq_lib::to_multiset_insert, vstd::seq_lib::to_multiset_build;

    if items.len() == 0 {
        assert(items =~= Seq::<StockData>::empty());
    } else {
        let head = sorted_by_symbol(items.drop_last());
        let item = items.last();
        let p = place_for(head, item);
        lemma_sorted_by_symbol(items.drop_last());
        lemma_place_for(head, item);
        let out = head.insert(p, item);
        assert forall|i: int, j: int| 0 <= i < j < out.len() implies lex_le(
            out[i].symbol,
            out[j].symbol,
        ) by {
            if j < p {
                assert(lex_le(head[i].symbol, head[j].symbol));
            } else if j == p {
                assert(out[i] == head[i]);
            } else if i == p {
                assert(out[j] == head[j - 1]);
                lemma_lex_le_total(head[j - 1].symbol, item.symbol);
            } else if i < p {
                assert(out[i] == head[i] && out[j] == head[j - 1]);
                assert(lex_le(head[i].symbol, head[j - 1].symbol));
            } else {
                assert(out[i] == head[i - 1] && out[j] == head[j - 1]);
                assert(lex_le(head[i - 1].symbol, head[j - 1].symbol));
            }
        }
        assert(items =~= items.drop_last().push(item));
        assert(out.to_multiset() == head.to_multiset().insert(item));
        assert(items.drop_last().push(item).to_multiset() == items.drop_last().to_multiset().insert(
            item,
        ));
    }
}

/// A list of stocks.
#[derive(Debug, Clone)]
pub struct Stocks(pub Vec<Stock>);

impl View for Stocks {
    type V = Seq<StockData>;

    open spec fn view(&self) -> Seq<StockData> {
        stocks_view(self.0@)
    }
}

impl Stocks {
    pub fn new(items: Vec<Stock>) -> (r: Stocks)
        ensures
            r.0 == items,
    {
        Stocks(items)
    }

    /// The stocks of the list, which ends with this.
    pub fn value(self) -> (r: Vec<Stock>)
        ensures
            r == self.0,
    {
        self.0
    }

    /// How many stocks the list has.
    pub fn len(&self) -> (r: usize)
        ensures
            r == self@.len(),
    {
        self.0.len()
    }

    /// The list in the order of the symbols; stocks of one symbol stay in the
    /// order in which they stood.
    pub fn sorted(self) -> (r: Stocks)
        ensures
            r@ == sorted_by_symbol(self@),
            symbols_ascend(r@),
            r@.to_multiset() == self@.to_multiset(),
    {
        let ghost view = self@;
        let mut out: Vec<Stock> = Vec::new();
        let mut i: usize = 0;
        assert(view.take(0) =~= Seq::<StockData>::empty());
        assert(stocks_view(out@) =~= Seq::<StockData>::empty());
        while i < self.0.len()
            invariant
                i <= self.0.len(),
                view == stocks_view(self.0@),
                stocks_view(out@) == sorted_by_symbol(view.take(i as int)),
            decreases self.0.len() - i,
        {
            let item: Stock = self.0[i].clone();
            let ghost head = stocks_view(out@);
            let ghost prefix = view.take(i + 1);
            proof {
                assert(prefix.drop_last() =~= view.take(i as int));
                assert(prefix.last() == item@);
            }
            let mut p: usize = out.len();
            assert(head.take(p as int) =~= head);
            while p > 0 && !text_le(out[p - 1].symbol.as_str(), item.symbol.as_str())
                invariant
                    p <= out.len(),
                    head == stocks_view(out@),
                    place_for(head, item@) == place_for(head.take(p as int), item@),
                decreases p,
            {
                proof {
                    assert(head.take(p as int).last() == out@[p - 1]@);
                    assert(head.take(p as int).drop_last() =~= head.take(p - 1));
                }
                p = p - 1;
            }
            proof {
                if p > 0 {
                    assert(head.take(p as int).last() == out@[p - 1]@);
                }
                assert(head.take(out.len() as int) =~= head);
            }
            out.insert(p, item);
            assert(stocks_view(out@) =~= head.insert(p as int, item@));
            i = i + 1;
        }
        proof {
            assert(view.take(self.0.len() as int) =~= view);
            lemma_sorted_by_symbol(view);
        }
        Stocks(out)
    }

    /// The stocks in whose symbol or name `filter` stands; all of them
    /// without a filter.
    pub fn filter(self, filter: Option<String>) -> (r: Stocks)
        ensures
            r@ == match filter {
                Some(text) => self@.filter(|s: StockData| stock_matches(s, text@)),
                None => self@,
            },
    {
        match filter {
            None => self,
            Some(text) => {
                let ghost view = self@;
                let ghost pred = |s: StockData| stock_matches(s, text@);
                let mut out: Vec<Stock> = Vec::new();
                let mut i: usize = 0;
                assert(view.take(0) =~= Seq::<StockData>::empty());
                assert(stocks_view(out@) =~= Seq::<StockData>::empty());
                while i < self.0.len()
                    invariant
                        i <= self.0.len(),
                        view == stocks_view(self.0@),
                        pred == (|s: StockData| stock_matches(s, text@)),
                        stocks_view(out@) == view.take(i as int).filter(pred),
                    decreases self.0.len() - i,
                {
                    let ghost head = stocks_view(out@);
                    proof {
                        assert(view.take(i + 1) =~= view.take(i as int).push(view[i as int]));
                        view.take(i as int).lemma_filter_push(view[i as int], pred);
                    }
                    if self.0[i].matches(text.as_str()) {
                        let item: Stock = self.0[i].clone();
                        out.push(item);
                        assert(stocks_view(out@) =~= head.push(item@));
                    }
                    i = i + 1;
                }
                assert(view.take(self.0.len() as int) =~= view);
                Stocks(out)
            },
        }
    }

    /// The stocks in whose symbol or name `filter` stands, in the order of
    /// the list.
    pub fn search(&self, filter: &str) -> (r: Vec<&Stock>)
        ensures
            stock_refs_view(r@) == self@.filter(|s: StockData| stock_matches(s, filter@)),
    {
        let ghost view = self@;
        let ghost pred = |s: StockData| stock_matches(s, filter@);
        let mut out: Vec<&Stock> = Vec::new();
        let mut i: usize = 0;
        assert(view.take(0) =~= Seq::<StockData>::empty());
        assert(stock_refs_view(out@) =~= Seq::<StockData>::empty());
        while i < self.0.len()
            invariant
                i <= self.0.len(),
                view == stocks_view(self.0@),
                pred == (|s: StockData| stock_matches(s, filter@)),
                stock_refs_view(out@) == view.take(i as int).filter(pred),
            decreases self.0.len() - i,
        {
            let ghost head = stock_refs_view(out@);
            proof {
                assert(view.take(i + 1) =~= view.take(i as int).push(view[i as int]));
                view.take(i as int).lemma_filter_push(view[i as int], pred);
            }
            let item: &Stock = &self.0[i];
            if item.matches(filter) {
                out.push(item);
                assert(stock_refs_view(out@) =~= head.push(item@));
            }
            i = i + 1;
        }
        assert(view.take(self.0.len() as int) =~= view);
        out
    }

    /// One of the stocks of the list, picked at random; none of an empty list.
    pub fn random(&self) -> (r: Option<Stock>)
        ensures
            r is None <==> self@.len() == 0,
            r matches Some(stock) ==> self@.contains(stock@),
    {
        if self.0.len() == 0 {
            return None;
        }
        let index: usize = random_below(self.0.len());
        let stock: Stock = self.0[index].clone();
        assert(self@[index as int] == stock@);
        Some(stock)
    }
}

} // verus!
