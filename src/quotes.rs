use vstd::prelude::*;

use crate::aggregate::{div_trunc, scaled_ratio};
use vstd::string::*;

verus! {

/// What `str::to_uppercase` makes of a string.
pub uninterp spec fn upper_of(s: Seq<char>) -> Seq<char>;

/// Relies on `str::to_uppercase`: the result depends on the characters alone.
#[verifier::external_body]
pub(crate) fn to_upper(s: &str) -> (r: String)
    ensures
        r@ == upper_of(s@),
{
    s.to_uppercase()
}

/// Relies on `rand::random`; nothing is known of the value drawn.
pub assume_specification<T>[ rand::random::<T> ]() -> (r: T)
    where
        rand::distributions::Standard: rand::distributions::Distribution<T>,
;

/// The price, in cents, around which the quotes of `t` move.
pub open spec fn base_price(t: Seq<char>) -> u64 {
    if t == "AAPL"@ {
        19134
    } else if t == "GOOGL"@ {
        14256
    } else if t == "MSFT"@ {
        37885
    } else if t == "TSLA"@ {
        24842
    } else if t == "AMZN"@ {
        15194
    } else if t == "NVDA"@ {
        48509
    } else if t == "META"@ {
        33492
    } else if t == "NFLX"@ {
        48509
    } else {
        10000
    }
}

/// `change` relative to `base`, in hundredths of a percent, rounded toward zero.
pub open spec fn percent_of(change: int, base: int) -> int {
    div_trunc(change * 10000, base)
}

/// The change, in cents, that a quote takes from a random draw: -500 to 499.
pub open spec fn change_from_draw(draw: u64) -> int {
    (draw % 1000) as int - 500
}

pub(crate) fn same_text(a: &str, b: &str) -> (r: bool)
    ensures
        r == (a@ == b@),
{
    a.to_owned() == b.to_owned()
}

/// The base price of `ticker`, in cents; unknown tickers get 100.00.
pub fn base_price_cents(ticker: &str) -> (r: u64)
    ensures
        r == base_price(ticker@),
        r >= 10000,
{
    proof {
        reveal_strlit("AAPL");
        reveal_strlit("GOOGL");
        reveal_strlit("MSFT");
        reveal_strlit("TSLA");
        reveal_strlit("AMZN");
        reveal_strlit("NVDA");
        reveal_strlit("META");
        reveal_strlit("NFLX");
    }
    if same_text(ticker, "AAPL") {
        19134
    } else if same_text(ticker, "GOOGL") {
        14256
    } else if same_text(ticker, "MSFT") {
        37885
    } else if same_text(ticker, "TSLA") {
        24842
    } else if same_text(ticker, "AMZN") {
        15194
    } else if same_text(ticker, "NVDA") {
        48509
    } else if same_text(ticker, "META") {
        33492
    } else if same_text(ticker, "NFLX") {
        48509
    } else {
        10000
    }
}

/// A point-in-time price of one ticker: price and change in cents, percent
/// change in hundredths of a percent of the base price.
#[derive(Debug)]
pub struct StockQuote {
    pub ticker: String,
    pub price: u64,
    pub change: i64,
    pub percent_change: i64,
}

/// The mock price source.
pub struct ResearchService;

impl ResearchService {
    pub fn new() -> (r: Self) {
        ResearchService
    }

    /// The quote of `ticker` for the random draw `draw`.
    pub fn get_mock_quote(&self, ticker: &str, draw: u64) -> (r: StockQuote)
        ensures
            r.ticker@ == ticker@,
            r.change == change_from_draw(draw),
            r.price == base_price(ticker@) + r.change,
            r.percent_change == percent_of(r.change as int, base_price(ticker@) as int),
    {
        let base = base_price_cents(ticker);
        let change: i64 = (draw % 1000) as i64 - 500;
        let pct = scaled_ratio(change as i128, base as i128);
        proof {
            lemma_percent_small(change as int, base as int);
        }
        StockQuote {
            ticker: ticker.to_owned(),
            price: (base as i64 + change) as u64,
            change,
            percent_change: pct as i64,
        }
    }

    /// A fresh quote of `ticker`, upper-cased: its change is drawn at random
    /// from -5.00 up to, not including, 5.00 around the base price.
    pub fn get_stock_quote(&self, ticker: &str) -> (r: StockQuote)
        ensures
            r.ticker@ == upper_of(ticker@),
            -500 <= r.change < 500,
            r.price == base_price(upper_of(ticker@)) + r.change,
            r.percent_change == percent_of(r.change as int, base_price(upper_of(ticker@)) as int),
    {
        let upper = to_upper(ticker);
        let draw: u64 = rand::random::<u64>();
        self.get_mock_quote(upper.as_str(), draw)
    }
}

proof fn lemma_percent_small(change: int, base: int)
    requires
        -500 <= change <= 500,
        base >= 10000,
    ensures
        -500 <= percent_of(change, base) <= 500,
{
    let a = change * 10000;
    if a >= 0 {
        assert(a / base <= a) by (nonlinear_arith)
            requires
                a >= 0,
                base >= 1,
        ;
        assert(a / base <= 500) by (nonlinear_arith)
            requires
                0 <= a <= 5000000,
                base >= 10000,
        ;
        assert(a / base >= 0) by (nonlinear_arith)
            requires
                a >= 0,
                base >= 1,
        ;
    } else {
        let b = -a;
        assert(b / base <= 500) by (nonlinear_arith)
            requires
                0 <= b <= 5000000,
                base >= 10000,
        ;
        assert(b / base >= 0) by (nonlinear_arith)
            requires
                b >= 0,
                base >= 1,
        ;
    }
}

/// The base price of every ticker is positive, and a quote's percent change is
/// its change over the base price times 100, off by less than one hundredth of
/// a percent: `change * 10000` and `percent * base` differ by less than `base`.
pub proof fn lemma_percent_change_rounding(ticker: Seq<char>, change: int)
    ensures
        base_price(ticker) > 0,
        -(base_price(ticker) as int) < change * 10000 - percent_of(change, base_price(ticker) as int)
            * base_price(ticker) < base_price(ticker) as int,
{
    lemma_percent_rounding(change, base_price(ticker) as int);
}

/// A change over a positive base, in hundredths of a percent, is off by less
/// than one unit: `change * 10000` and `percent * base` differ by less than `base`.
pub proof fn lemma_percent_rounding(change: int, base: int)
    requires
        base > 0,
    ensures
        -base < change * 10000 - percent_of(change, base) * base < base,
{
    let a = change * 10000;
    let p = percent_of(change, base);
    if a >= 0 {
        assert(0 <= a - (a / base) * base < base) by (nonlinear_arith)
            requires
                a >= 0,
                base > 0,
        ;
    } else {
        let b = -a;
        assert(0 <= b - (b / base) * base < base) by (nonlinear_arith)
            requires
                b >= 0,
                base > 0,
        ;
        assert(p == -(b / base));
        assert(a - p * base == -(b - (b / base) * base)) by (nonlinear_arith)
            requires
                a == -b,
                p == -(b / base),
        ;
    }
}

/// What `char::is_alphanumeric` says of a character.
pub uninterp spec fn alphanumeric(c: char) -> bool;

/// Relies on `char::is_alphanumeric`: true of alphabetic and numeric characters;
/// among ASCII characters these are the letters and the digits alone.
#[verifier::external_body]
fn is_alphanumeric(c: char) -> (r: bool)
    ensures
        r == alphanumeric(c),
        (c as u32) < 128 ==> (r == ('a' <= c <= 'z' || 'A' <= c <= 'Z' || '0' <= c <= '9')),
{
    c.is_alphanumeric()
}

/// A usable ticker: at least one character, at most ten bytes, and nothing
/// but letters and digits.
pub open spec fn valid_symbol(chars: Seq<char>, byte_len: usize) -> bool {
    &&& chars.len() > 0
    &&& byte_len <= 10
    &&& forall|i: int| 0 <= i < chars.len() ==> alphanumeric(#[trigger] chars[i])
}

/// Whether `symbol` is a usable ticker. Letters and digits are never
/// whitespace, so a non-empty symbol of them stays non-empty when trimmed.
pub fn validate_stock_symbol(symbol: &str) -> (r: bool)
    ensures
        r == valid_symbol(symbol@, symbol.len()),
{
    let n = symbol.unicode_len();
    if n == 0 || symbol.len() > 10 {
        return false;
    }
    let mut i: usize = 0;
    while i < n
        invariant
            n == symbol@.len(),
            i <= n,
            forall|k: int| 0 <= k < i ==> alphanumeric(#[trigger] symbol@[k]),
        decreases n - i,
    {
        if !is_alphanumeric(symbol.get_char(i)) {
            return false;
        }
        i = i + 1;
    }
    true
}

/// What `char::is_whitespace` says of a character.
pub uninterp spec fn whitespace(c: char) -> bool;

/// Relies on `char::is_whitespace`: true of characters with Unicode's
/// White_Space property; among ASCII characters these are tab, line feed,
/// vertical tab, form feed, carriage return (9 to 13) and space (32).
#[verifier::external_body]
fn is_whitespace(c: char) -> (r: bool)
    ensures
        r == whitespace(c),
        (c as u32) < 128 ==> (r == (9 <= (c as u32) <= 13 || (c as u32) == 32)),
{
    c.is_whitespace()
}

/// `s` holds nothing but whitespace, so `str::trim` leaves it empty.
pub open spec fn blank(s: Seq<char>) -> bool {
    forall|i: int| 0 <= i < s.len() ==> whitespace(#[trigger] s[i])
}

/// Whether `s` is empty or holds nothing but whitespace.
pub fn is_blank(s: &str) -> (r: bool)
    ensures
        r == blank(s@),
{
    let n = s.unicode_len();
    let mut i: usize = 0;
    while i < n
        invariant
            n == s@.len(),
            i <= n,
            forall|k: int| 0 <= k < i ==> whitespace(#[trigger] s@[k]),
        decreases n - i,
    {
        if !is_whitespace(s.get_char(i)) {
            return false;
        }
        i = i + 1;
    }
    true
}

} // verus!
