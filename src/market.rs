use vstd::prelude::*;

use crate::aggregate::{item_of, PortfolioItem};
use crate::models::{AddPositionRequest, AddWatchlistRequest, StoreError};
use crate::portfolio::{
    add_refused, after_add, find_position, index_of, lemma_after_add_holds, PortfolioService,
};
use crate::quotes::{
    blank, change_from_draw, is_blank, lemma_percent_rounding, percent_of, same_text, to_upper, upper_of,
};
use crate::aggregate::scaled_ratio;
use crate::watchlist::WatchlistService;

verus! {

/// Relies on `chrono::Utc::now` and `DateTime::timestamp_millis`: the time now in
/// milliseconds since the Unix epoch. chrono's dates lie within the years
/// -262143 to 262142, well inside the bound stated.
#[verifier::external_body]
pub(crate) fn now_millis() -> (r: i64)
    ensures
        -10_000_000_000_000_000 <= r <= 10_000_000_000_000_000,
{
    chrono::Utc::now().timestamp_millis()
}

/// Milliseconds in a day.
pub const DAY_MILLIS: i64 = 86400000;

/// The most days of history served.
pub const MAX_HISTORY_DAYS: u32 = 365;

/// A snapshot of one symbol: prices in cents, `change_percent` in hundredths of a
/// percent of the base price, `timestamp` in milliseconds since the Unix epoch.
#[derive(Debug)]
pub struct StockPrice {
    pub symbol: String,
    pub price: u64,
    pub change: i64,
    pub change_percent: i64,
    pub volume: u64,
    pub market_cap: Option<u64>,
    pub high_24h: Option<u64>,
    pub low_24h: Option<u64>,
    pub open: Option<u64>,
    pub previous_close: Option<u64>,
    pub timestamp: i64,
}

/// `a` and `b` hold the same figures.
pub open spec fn same_stock(a: StockPrice, b: StockPrice) -> bool {
    &&& a.symbol@ == b.symbol@
    &&& a.price == b.price
    &&& a.change == b.change
    &&& a.change_percent == b.change_percent
    &&& a.volume == b.volume
    &&& a.market_cap == b.market_cap
    &&& a.high_24h == b.high_24h
    &&& a.low_24h == b.low_24h
    &&& a.open == b.open
    &&& a.previous_close == b.previous_close
    &&& a.timestamp == b.timestamp
}

impl StockPrice {
    /// A copy with the same figures.
    pub fn duplicate(&self) -> (r: StockPrice)
        ensures
            same_stock(r, *self),
    {
        StockPrice {
            symbol: self.symbol.clone(),
            price: self.price,
            change: self.change,
            change_percent: self.change_percent,
            volume: self.volume,
            market_cap: self.market_cap,
            high_24h: self.high_24h,
            low_24h: self.low_24h,
            open: self.open,
            previous_close: self.previous_close,
            timestamp: self.timestamp,
        }
    }
}

/// The traded volume that a random draw gives: 1,000,000 to 10,999,999.
pub open spec fn volume_from_draw(draw: u64) -> int {
    (draw % 10000000) as int + 1000000
}

/// The spread, in cents, that a random draw gives: 0 to 499.
pub open spec fn spread_from_draw(draw: u64) -> int {
    (draw % 500) as int
}

/// The price, in cents, around which the market snapshots of `t` move.
pub open spec fn market_base_price(t: Seq<char>) -> u64 {
    if t == "AAPL"@ {
        15000
    } else if t == "GOOGL"@ {
        280000
    } else if t == "MSFT"@ {
        30000
    } else if t == "TSLA"@ {
        80000
    } else if t == "AMZN"@ {
        330000
    } else if t == "NVDA"@ {
        50000
    } else if t == "META"@ {
        35000
    } else if t == "NFLX"@ {
        60000
    } else {
        10000
    }
}

/// The market base price of `symbol`, in cents; unknown symbols get 100.00.
pub fn market_base_price_cents(symbol: &str) -> (r: u64)
    ensures
        r == market_base_price(symbol@),
        10000 <= r <= 330000,
{
    proof {
        reveal_strlit("AAPL");
        reveal_strlit("GOOGL");
        reveal_strlit("MSFT");
        reveal_strlit("TSLA");
        reveal_strlit("AMZN");
        reveal_strlit("NVDA");
        reveal_strlit("META");
        reveal_strlit("NFLX");
    }
    if same_text(symbol, "AAPL") {
        15000
    } else if same_text(symbol, "GOOGL") {
        280000
    } else if same_text(symbol, "MSFT") {
        30000
    } else if same_text(symbol, "TSLA") {
        80000
    } else if same_text(symbol, "AMZN") {
        330000
    } else if same_text(symbol, "NVDA") {
        50000
    } else if same_text(symbol, "META") {
        35000
    } else if same_text(symbol, "NFLX") {
        60000
    } else {
        10000
    }
}

/// The market base price of every symbol is positive, and a snapshot's percent
/// change is its change over that base times 100, off by less than one
/// hundredth of a percent.
pub proof fn lemma_market_percent_rounding(symbol: Seq<char>, change: int)
    ensures
        market_base_price(symbol) > 0,
        -(market_base_price(symbol) as int) < change * 10000 - percent_of(
            change,
            market_base_price(symbol) as int,
        ) * market_base_price(symbol) < market_base_price(symbol) as int,
{
    lemma_percent_rounding(change, market_base_price(symbol) as int);
}

/// `p` is the snapshot of `symbol` for the given draws and time.
pub open spec fn price_of(
    p: StockPrice,
    symbol: Seq<char>,
    change_draw: u64,
    volume_draw: u64,
    high_draw: u64,
    low_draw: u64,
    timestamp: i64,
) -> bool {
    let base = market_base_price(symbol) as int;
    let change = change_from_draw(change_draw);
    let price = base + change;
    &&& p.symbol@ == symbol
    &&& p.price == price
    &&& p.change == change
    &&& p.change_percent == percent_of(change, base)
    &&& p.volume == volume_from_draw(volume_draw)
    &&& p.market_cap == Some((p.volume * 100) as u64)
    &&& p.high_24h == Some((price + spread_from_draw(high_draw)) as u64)
    &&& p.low_24h == Some((price - spread_from_draw(low_draw)) as u64)
    &&& p.open == Some(base as u64)
    &&& p.previous_close == Some((base - change) as u64)
    &&& p.timestamp == timestamp
}

/// What holds of every snapshot of `symbol`, whatever was drawn.
pub open spec fn price_consistent(p: StockPrice, symbol: Seq<char>) -> bool {
    let base = market_base_price(symbol) as int;
    &&& p.symbol@ == symbol
    &&& -500 <= p.change < 500
    &&& p.price == base + p.change
    &&& p.change_percent == percent_of(p.change as int, base)
    &&& 1000000 <= p.volume < 11000000
    &&& p.market_cap == Some((p.volume * 100) as u64)
    &&& p.high_24h is Some && p.price <= p.high_24h->0 < p.price + 500
    &&& p.low_24h is Some && p.price - 500 < p.low_24h->0 <= p.price
    &&& p.open == Some(base as u64)
    &&& p.previous_close == Some((base - p.change) as u64)
}

/// One day of history: prices in cents, `date` in milliseconds since the Unix epoch.
#[derive(Debug)]
pub struct HistoricalDataPoint {
    pub date: i64,
    pub open: u64,
    pub high: u64,
    pub low: u64,
    pub close: u64,
    pub volume: u64,
}

/// `pt` is the day at `date` of a symbol priced around `base`, for the given draws.
pub open spec fn point_of(
    pt: HistoricalDataPoint,
    base: int,
    date: i64,
    open_draw: u64,
    high_draw: u64,
    low_draw: u64,
    close_draw: u64,
    volume_draw: u64,
) -> bool {
    let open = base + (open_draw % 2000) as int - 1000;
    let high = open + (high_draw % 1000) as int;
    let low = open - (low_draw % 1000) as int;
    &&& pt.date == date
    &&& pt.open == open
    &&& pt.high == high
    &&& pt.low == low
    &&& pt.close == if high > low {
        low + (close_draw % ((high - low) as u64)) as int
    } else {
        low
    }
    &&& pt.volume == volume_from_draw(volume_draw)
}

/// What holds of every day of history of a symbol priced around `base`.
pub open spec fn point_consistent(pt: HistoricalDataPoint, base: int) -> bool {
    &&& base - 1000 <= pt.open < base + 1000
    &&& pt.open <= pt.high < pt.open + 1000
    &&& pt.open - 1000 < pt.low <= pt.open
    &&& pt.low <= pt.close <= pt.high
    &&& (pt.low < pt.high ==> pt.close < pt.high)
    &&& 1000000 <= pt.volume < 11000000
}

/// The history of one symbol, oldest day first.
#[derive(Debug)]
pub struct StockHistory {
    pub symbol: String,
    pub data: Vec<HistoricalDataPoint>,
}

/// A watched ticker with its live quote.
#[derive(Debug)]
pub struct WatchlistItem {
    pub symbol: String,
    pub current_price: u64,
    pub change: i64,
    pub change_percent: i64,
}

/// A ranking key: the ratio `k.0 / k.1`, with a positive denominator.
pub type RatioKey = (i128, i128);

/// `k` has a positive denominator below 2^63 and a numerator of magnitude below
/// 2^64, so that cross products of two keys fit an `i128`.
pub open spec fn key_ok(k: RatioKey) -> bool {
    &&& -18446744073709551616 < k.0 < 18446744073709551616
    &&& 0 < k.1 < 9223372036854775808
}

/// The ratio of `a` is larger than the ratio of `b`.
pub open spec fn above(a: RatioKey, b: RatioKey) -> bool {
    a.0 * b.1 > b.0 * a.1
}

/// The ratios of `a` and `b` are equal.
pub open spec fn level(a: RatioKey, b: RatioKey) -> bool {
    a.0 * b.1 == b.0 * a.1
}

/// `i` comes before `j` when `keys` are ranked: the larger ratio first in
/// descending order, the smaller in ascending order, and on equal ratios the
/// smaller index, as a stable sort leaves them.
pub open spec fn ranks_before(keys: Seq<RatioKey>, descending: bool, i: int, j: int) -> bool {
    if descending {
        above(keys[i], keys[j]) || (level(keys[i], keys[j]) && i < j)
    } else {
        above(keys[j], keys[i]) || (level(keys[i], keys[j]) && i < j)
    }
}

proof fn lemma_cross_fits(a: RatioKey, b: RatioKey)
    requires
        key_ok(a),
        key_ok(b),
    ensures
        -i128::MAX <= a.0 * b.1 <= i128::MAX,
{
    assert(-i128::MAX <= a.0 * b.1 <= i128::MAX) by (nonlinear_arith)
        requires
            -18446744073709551616 < a.0 < 18446744073709551616,
            0 < b.1 < 9223372036854775808,
    ;
}

proof fn lemma_sign_mul(d: int, y: int)
    requires
        y > 0,
    ensures
        d > 0 <==> d * y > 0,
        d == 0 <==> d * y == 0,
{
    assert(d > 0 <==> d * y > 0) by (nonlinear_arith)
        requires
            y > 0,
    ;
    assert(d == 0 <==> d * y == 0) by (nonlinear_arith)
        requires
            y > 0,
    ;
}

proof fn lemma_ranks_trans(keys: Seq<RatioKey>, descending: bool, i: int, j: int, k: int)
    requires
        0 <= i < keys.len(),
        0 <= j < keys.len(),
        0 <= k < keys.len(),
        keys[i].1 > 0,
        keys[j].1 > 0,
        keys[k].1 > 0,
        ranks_before(keys, descending, i, j),
        ranks_before(keys, descending, j, k),
    ensures
        ranks_before(keys, descending, i, k),
{
    let (x1, y1) = (keys[i].0 as int, keys[i].1 as int);
    let (x2, y2) = (keys[j].0 as int, keys[j].1 as int);
    let (x3, y3) = (keys[k].0 as int, keys[k].1 as int);
    let d12 = x1 * y2 - x2 * y1;
    let d23 = x2 * y3 - x3 * y2;
    let d13 = x1 * y3 - x3 * y1;
    assert(d13 * y2 == d12 * y3 + d23 * y1) by (nonlinear_arith)
        requires
            d12 == x1 * y2 - x2 * y1,
            d23 == x2 * y3 - x3 * y2,
            d13 == x1 * y3 - x3 * y1,
    ;
    lemma_sign_mul(d12, y3);
    lemma_sign_mul(-d12, y3);
    lemma_sign_mul(d23, y1);
    lemma_sign_mul(-d23, y1);
    lemma_sign_mul(d13, y2);
    lemma_sign_mul(-d13, y2);
    assert((-d12) * y3 == -(d12 * y3)) by (nonlinear_arith);
    assert((-d23) * y1 == -(d23 * y1)) by (nonlinear_arith);
    assert((-d13) * y2 == -(d13 * y2)) by (nonlinear_arith);
}

/// Whether the ratio of `a` is larger than that of `b`.
fn key_above(a: RatioKey, b: RatioKey) -> (r: bool)
    requires
        key_ok(a),
        key_ok(b),
    ensures
        r == above(a, b),
{
    proof {
        lemma_cross_fits(a, b);
        lemma_cross_fits(b, a);
    }
    a.0 * b.1 > b.0 * a.1
}

/// Whether the ratios of `a` and `b` are equal.
fn key_level(a: RatioKey, b: RatioKey) -> (r: bool)
    requires
        key_ok(a),
        key_ok(b),
    ensures
        r == level(a, b),
{
    proof {
        lemma_cross_fits(a, b);
        lemma_cross_fits(b, a);
    }
    a.0 * b.1 == b.0 * a.1
}

/// `i` is the first in the ranking of `keys` among the indices not in `chosen`.
pub open spec fn picks_next(keys: Seq<RatioKey>, descending: bool, chosen: Seq<usize>, i: usize) -> bool {
    &&& i < keys.len()
    &&& !chosen.contains(i)
    &&& forall|j: int|
        0 <= j < keys.len() && j != i && !chosen.contains(j as usize) ==> ranks_before(
            keys,
            descending,
            i as int,
            j,
        )
}

/// `idx` lists, in order, the first `idx.len()` places of the ranking of `keys`.
pub open spec fn ranking_prefix(keys: Seq<RatioKey>, descending: bool, idx: Seq<usize>) -> bool {
    forall|p: int| 0 <= p < idx.len() ==> #[trigger] picks_next(keys, descending, idx.take(p), idx[p])
}

/// The indices of the first `k` places (or all, when there are fewer) of the
/// ranking of `keys`, best first.
pub fn top_ranked(keys: &Vec<RatioKey>, descending: bool, k: usize) -> (r: Vec<usize>)
    requires
        forall|x: int| 0 <= x < keys@.len() ==> key_ok(#[trigger] keys@[x]),
    ensures
        r@.len() == if k < keys@.len() {
            k as nat
        } else {
            keys@.len()
        },
        ranking_prefix(keys@, descending, r@),
{
    let n = keys.len();
    let m = if k < n {
        k
    } else {
        n
    };
    let mut rest: Vec<usize> = Vec::new();
    let mut i: usize = 0;
    while i < n
        invariant
            n == keys@.len(),
            i <= n,
            rest@.len() == i,
            forall|q: int| 0 <= q < i ==> rest@[q] == q,
        decreases n - i,
    {
        rest.push(i);
        i = i + 1;
    }
    let mut r: Vec<usize> = Vec::new();
    assert forall|j: usize| j < n implies #[trigger] rest@.contains(j) by {
        assert(rest@[j as int] == j);
    }
    while r.len() < m
        invariant
            n == keys@.len(),
            forall|x: int| 0 <= x < keys@.len() ==> key_ok(#[trigger] keys@[x]),
            m <= n,
            r@.len() <= m,
            rest@.len() + r@.len() == n,
            rest@.no_duplicates(),
            forall|q: int| 0 <= q < rest@.len() ==> rest@[q] < n,
            forall|j: usize| j < n ==> (#[trigger] rest@.contains(j) <==> !r@.contains(j)),
            ranking_prefix(keys@, descending, r@),
        decreases m - r@.len(),
    {
        let mut best_pos: usize = 0;
        let mut q: usize = 1;
        while q < rest.len()
            invariant
                n == keys@.len(),
                forall|x: int| 0 <= x < keys@.len() ==> key_ok(#[trigger] keys@[x]),
                0 < rest@.len(),
                forall|x: int| 0 <= x < rest@.len() ==> rest@[x] < n,
                best_pos < q <= rest@.len(),
                forall|x: int|
                    0 <= x < q && x != best_pos ==> ranks_before(
                        keys@,
                        descending,
                        rest@[best_pos as int] as int,
                        rest@[x] as int,
                    ),
                rest@.no_duplicates(),
            decreases rest@.len() - q,
        {
            let cand = rest[q];
            let best = rest[best_pos];
            let level_keys = key_level(keys[cand], keys[best]);
            let better = if descending {
                key_above(keys[cand], keys[best]) || (level_keys && cand < best)
            } else {
                key_above(keys[best], keys[cand]) || (level_keys && cand < best)
            };
            if better {
                proof {
                    assert(rest@[q as int] != rest@[best_pos as int]);
                    assert forall|x: int| 0 <= x < q + 1 && x != q implies ranks_before(
                        keys@,
                        descending,
                        rest@[q as int] as int,
                        rest@[x] as int,
                    ) by {
                        if x != best_pos {
                            assert(key_ok(keys@[cand as int]));
                            assert(key_ok(keys@[best as int]));
                            assert(key_ok(keys@[rest@[x] as int]));
                            lemma_ranks_trans(keys@, descending, cand as int, best as int, rest@[x] as int);
                        }
                    }
                }
                best_pos = q;
            } else {
                proof {
                    assert(rest@[q as int] != rest@[best_pos as int]);
                }
            }
            q = q + 1;
        }
        let best = rest[best_pos];
        let ghost old_r = r@;
        let ghost old_rest = rest@;
        proof {
            assert(old_rest.contains(best));
            assert forall|j: int|
                0 <= j < n && j != best && !old_r.contains(j as usize) implies ranks_before(
                keys@,
                descending,
                best as int,
                j,
            ) by {
                assert(old_rest.contains(j as usize));
                let x = choose|x: int| 0 <= x < old_rest.len() && old_rest[x] == j as usize;
                assert(old_rest[x] == j as usize);
                assert(x != best_pos);
            }
            assert(picks_next(keys@, descending, old_r, best));
        }
        r.push(best);
        rest.remove(best_pos);
        proof {
            assert forall|p: int| 0 <= p < r@.len() implies #[trigger] picks_next(
                keys@,
                descending,
                r@.take(p),
                r@[p],
            ) by {
                if p < old_r.len() {
                    assert(r@.take(p) =~= old_r.take(p));
                    assert(picks_next(keys@, descending, old_r.take(p), old_r[p]));
                } else {
                    assert(r@.take(p) =~= old_r);
                }
            }
            assert forall|j: usize| j < n implies (#[trigger] rest@.contains(j) <==> !r@.contains(j)) by {
                if rest@.contains(j) {
                    let x = choose|x: int| 0 <= x < rest@.len() && rest@[x] == j;
                    let y = if x < best_pos {
                        x
                    } else {
                        x + 1
                    };
                    assert(old_rest[y] == j);
                    assert(y != best_pos);
                    assert(old_rest.contains(j));
                    if r@.contains(j) {
                        let z = choose|z: int| 0 <= z < r@.len() && r@[z] == j;
                        if z < old_r.len() {
                            assert(old_r[z] == j);
                        }
                    }
                } else {
                    if j != best {
                        if old_rest.contains(j) {
                            let y = choose|y: int| 0 <= y < old_rest.len() && old_rest[y] == j;
                            let x = if y < best_pos {
                                y
                            } else {
                                y - 1
                            };
                            assert(rest@[x] == j);
                        }
                        let z = choose|z: int| 0 <= z < old_r.len() && old_r[z] == j;
                        assert(r@[z] == j);
                    } else {
                        assert(r@[old_r.len() as int] == best);
                    }
                }
            }
            assert forall|a: int, b: int|
                0 <= a < rest@.len() && 0 <= b < rest@.len() && a != b implies rest@[a] != rest@[b] by {
                let a2 = if a < best_pos {
                    a
                } else {
                    a + 1
                };
                let b2 = if b < best_pos {
                    b
                } else {
                    b + 1
                };
                assert(rest@[a] == old_rest[a2] && rest@[b] == old_rest[b2]);
            }
            assert forall|x: int| 0 <= x < rest@.len() implies rest@[x] < n by {
                let x2 = if x < best_pos {
                    x
                } else {
                    x + 1
                };
                assert(rest@[x] == old_rest[x2]);
            }
        }
    }
    r
}

/// The sum of the volumes of `s`.
pub open spec fn total_volume(s: Seq<StockPrice>) -> int
    decreases s.len(),
{
    if s.len() == 0 {
        0
    } else {
        total_volume(s.drop_last()) + s.last().volume
    }
}

/// The market capitalisation of `p`, 0 when it has none.
pub open spec fn cap_of(p: StockPrice) -> int {
    match p.market_cap {
        Some(c) => c as int,
        None => 0,
    }
}

/// The sum of the market capitalisations of `s`.
pub open spec fn total_cap(s: Seq<StockPrice>) -> int
    decreases s.len(),
{
    if s.len() == 0 {
        0
    } else {
        total_cap(s.drop_last()) + cap_of(s.last())
    }
}

proof fn lemma_prefix_totals(s: Seq<StockPrice>, i: int)
    requires
        0 <= i <= s.len(),
    ensures
        0 <= total_volume(s.take(i)) <= total_volume(s),
        0 <= total_cap(s.take(i)) <= total_cap(s),
    decreases s.len(),
{
    if i < s.len() {
        lemma_prefix_totals(s.drop_last(), i);
        assert(s.drop_last().take(i) =~= s.take(i));
    } else {
        assert(s.take(i) =~= s);
        if s.len() > 0 {
            lemma_prefix_totals(s.drop_last(), i - 1);
            assert(s.drop_last().take(i - 1) =~= s.drop_last());
        }
    }
}

proof fn lemma_totals_bounded(s: Seq<StockPrice>)
    requires
        forall|i: int| 0 <= i < s.len() ==> s[i].volume < 11000000 && cap_of(s[i]) < 1100000000,
    ensures
        total_volume(s) <= s.len() * 11000000,
        total_cap(s) <= s.len() * 1100000000,
    decreases s.len(),
{
    if s.len() > 0 {
        lemma_totals_bounded(s.drop_last());
    }
}

/// `out` holds copies of the stocks of `s` at the indices `idx`, in that order.
pub open spec fn picked(out: Seq<StockPrice>, s: Seq<StockPrice>, idx: Seq<usize>) -> bool {
    &&& out.len() == idx.len()
    &&& forall|p: int| 0 <= p < idx.len() ==> idx[p] < s.len() && same_stock(out[p], s[idx[p] as int])
}

/// How `p` ranks among gainers and losers: its change over its opening price,
/// exactly; the stored percentage stands in where there is no usable opening
/// price.
pub open spec fn percent_key(p: StockPrice) -> RatioKey {
    match p.open {
        Some(b) => if 0 < b < 9223372036854775808 {
            (p.change as i128, b as i128)
        } else {
            (p.change_percent as i128, 10000)
        },
        None => (p.change_percent as i128, 10000),
    }
}

/// The gainer and loser ranking keys of `s`.
pub open spec fn percent_keys(s: Seq<StockPrice>) -> Seq<RatioKey> {
    s.map_values(|p: StockPrice| percent_key(p))
}

/// The volumes of `s`, as ranking keys.
pub open spec fn volume_keys(s: Seq<StockPrice>) -> Seq<RatioKey> {
    s.map_values(|p: StockPrice| (p.volume as i128, 1i128))
}

fn ratio_key(p: &StockPrice) -> (r: RatioKey)
    ensures
        r == percent_key(*p),
        key_ok(r),
{
    match p.open {
        Some(b) => if 0 < b && b < 9223372036854775808 {
            (p.change as i128, b as i128)
        } else {
            (p.change_percent as i128, 10000)
        },
        None => (p.change_percent as i128, 10000),
    }
}

/// `out` is the first five (or all, when there are fewer) of `s` in the ranking by `keys`.
pub open spec fn top_five(out: Seq<StockPrice>, s: Seq<StockPrice>, keys: Seq<RatioKey>, descending: bool) -> bool {
    exists|idx: Seq<usize>|
        #[trigger] ranking_prefix(keys, descending, idx) && idx.len() == (if s.len() < 5 {
            s.len()
        } else {
            5
        }) && picked(out, s, idx)
}

/// A summary of a set of stocks at one time.
#[derive(Debug)]
pub struct MarketSummary {
    pub total_market_cap: u64,
    pub total_volume: u64,
    pub gainers: Vec<StockPrice>,
    pub losers: Vec<StockPrice>,
    pub most_active: Vec<StockPrice>,
    pub timestamp: i64,
}

/// `r` sums the volumes and capitalisations of `s`, and ranks it: gainers by
/// falling change relative to the opening price, losers by rising change
/// relative to it, the most active by falling volume; equal keys keep the order of `s`.
pub open spec fn summarizes(r: MarketSummary, s: Seq<StockPrice>) -> bool {
    &&& r.total_volume == total_volume(s)
    &&& r.total_market_cap == total_cap(s)
    &&& top_five(r.gainers@, s, percent_keys(s), true)
    &&& top_five(r.losers@, s, percent_keys(s), false)
    &&& top_five(r.most_active@, s, volume_keys(s), true)
}

/// The symbols of the market summary.
pub open spec fn popular_symbols() -> Seq<Seq<char>> {
    seq!["AAPL"@, "GOOGL"@, "MSFT"@, "TSLA"@, "AMZN"@, "NVDA"@, "META"@, "NFLX"@]
}

fn select(stocks: &Vec<StockPrice>, idx: &Vec<usize>) -> (r: Vec<StockPrice>)
    requires
        forall|p: int| 0 <= p < idx@.len() ==> idx@[p] < stocks@.len(),
    ensures
        picked(r@, stocks@, idx@),
{
    let mut out: Vec<StockPrice> = Vec::new();
    let mut p: usize = 0;
    while p < idx.len()
        invariant
            p <= idx@.len(),
            out@.len() == p,
            forall|x: int| 0 <= x < idx@.len() ==> idx@[x] < stocks@.len(),
            forall|x: int| 0 <= x < p ==> same_stock(out@[x], stocks@[idx@[x] as int]),
        decreases idx@.len() - p,
    {
        out.push(stocks[idx[p]].duplicate());
        p = p + 1;
    }
    out
}

proof fn lemma_ranked_in_range(keys: Seq<RatioKey>, descending: bool, idx: Seq<usize>)
    requires
        ranking_prefix(keys, descending, idx),
    ensures
        forall|p: int| 0 <= p < idx.len() ==> idx[p] < keys.len(),
{
    assert forall|p: int| 0 <= p < idx.len() implies idx[p] < keys.len() by {
        assert(picks_next(keys, descending, idx.take(p), idx[p]));
    }
}

/// Asks to buy `shares` shares of `symbol` at `price_per_share` cents each.
pub struct AddToPortfolioRequest {
    pub symbol: String,
    pub shares: u32,
    pub price_per_share: u64,
}

/// Asks to start watching `symbol`.
pub struct AddToWatchlistRequest {
    pub symbol: String,
}

/// The query of a history request: how many days, 30 when not given.
pub struct HistoryQuery {
    pub days: Option<u32>,
}

impl HistoryQuery {
    /// The number of days asked for.
    pub fn days_or_default(&self) -> (r: u32)
        ensures
            r == match self.days {
                Some(d) => d,
                None => 30,
            },
    {
        match self.days {
            Some(d) => d,
            None => 30,
        }
    }
}

/// The mock market-data service.
pub struct FinanceService;

impl FinanceService {
    /// The snapshot of `symbol` for the given random draws and time.
    pub fn price_from_draws(
        symbol: &str,
        change_draw: u64,
        volume_draw: u64,
        high_draw: u64,
        low_draw: u64,
        timestamp: i64,
    ) -> (r: StockPrice)
        ensures
            price_of(r, symbol@, change_draw, volume_draw, high_draw, low_draw, timestamp),
            price_consistent(r, symbol@),
    {
        let base = market_base_price_cents(symbol);
        let change: i64 = (change_draw % 1000) as i64 - 500;
        let price: u64 = (base as i64 + change) as u64;
        let pct = scaled_ratio(change as i128, base as i128);
        proof {
            lemma_percent_rounding(change as int, base as int);
            assert(-500 <= pct <= 500) by (nonlinear_arith)
                requires
                    -(base as int) < change * 10000 - pct * base < base as int,
                    -500 <= change <= 500,
                    base >= 10000,
            ;
        }
        let volume: u64 = volume_draw % 10000000 + 1000000;
        StockPrice {
            symbol: symbol.to_owned(),
            price,
            change,
            change_percent: pct as i64,
            volume,
            market_cap: Some(volume * 100),
            high_24h: Some(price + high_draw % 500),
            low_24h: Some(price - low_draw % 500),
            open: Some(base),
            previous_close: Some((base as i64 - change) as u64),
            timestamp,
        }
    }

    fn draw_price(symbol: &str) -> (r: StockPrice)
        ensures
            price_consistent(r, symbol@),
    {
        let change_draw: u64 = rand::random::<u64>();
        let volume_draw: u64 = rand::random::<u64>();
        let high_draw: u64 = rand::random::<u64>();
        let low_draw: u64 = rand::random::<u64>();
        let now = now_millis();
        Self::price_from_draws(symbol, change_draw, volume_draw, high_draw, low_draw, now)
    }

    /// A fresh snapshot of `symbol`, upper-cased.
    pub fn get_stock_price(symbol: &str) -> (r: StockPrice)
        ensures
            price_consistent(r, upper_of(symbol@)),
    {
        let upper = to_upper(symbol);
        Self::draw_price(upper.as_str())
    }

    /// The day at `date` of `symbol`'s history, for the given random draws.
    pub fn history_point(
        symbol: &str,
        date: i64,
        open_draw: u64,
        high_draw: u64,
        low_draw: u64,
        close_draw: u64,
        volume_draw: u64,
    ) -> (r: HistoricalDataPoint)
        ensures
            point_of(
                r,
                market_base_price(symbol@) as int,
                date,
                open_draw,
                high_draw,
                low_draw,
                close_draw,
                volume_draw,
            ),
            point_consistent(r, market_base_price(symbol@) as int),
    {
        let base = market_base_price_cents(symbol);
        let open: u64 = base + open_draw % 2000 - 1000;
        let high: u64 = open + high_draw % 1000;
        let low: u64 = open - low_draw % 1000;
        let close: u64 = if high > low {
            low + close_draw % (high - low)
        } else {
            low
        };
        HistoricalDataPoint { date, open, high, low, close, volume: volume_draw % 10000000 + 1000000 }
    }

    /// `days` days of `symbol`'s history, upper-cased, oldest first and one day
    /// apart, ending now; more than 365 days are refused.
    pub fn get_stock_history(symbol: &str, days: u32) -> (r: Result<StockHistory, String>)
        ensures
            match r {
                Ok(h) => days <= MAX_HISTORY_DAYS && h.symbol@ == upper_of(symbol@) && h.data@.len()
                    == days && (forall|k: int|
                    0 <= k < h.data@.len() ==> point_consistent(
                        #[trigger] h.data@[k],
                        market_base_price(upper_of(symbol@)) as int,
                    )) && (forall|k: int|
                    0 <= k < h.data@.len() - 1 ==> #[trigger] h.data@[k + 1].date == h.data@[k].date
                        + DAY_MILLIS),
                Err(_) => days > MAX_HISTORY_DAYS,
            },
    {
        if days > MAX_HISTORY_DAYS {
            return Err("Days parameter cannot exceed 365".to_owned());
        }
        let upper = to_upper(symbol);
        let now = now_millis();
        let mut data: Vec<HistoricalDataPoint> = Vec::new();
        let mut i: u32 = days;
        while i > 0
            invariant
                i <= days <= MAX_HISTORY_DAYS,
                -10_000_000_000_000_000 <= now <= 10_000_000_000_000_000,
                data@.len() == days - i,
                forall|k: int| 0 <= k < data@.len() ==> point_consistent(
                    #[trigger] data@[k],
                    market_base_price(upper@) as int,
                ),
                forall|k: int| 0 <= k < data@.len() ==> #[trigger] data@[k].date == now - (days - 1 - k) * DAY_MILLIS,
            decreases i,
        {
            i = i - 1;
            let date: i64 = now - i as i64 * DAY_MILLIS;
            let open_draw: u64 = rand::random::<u64>();
            let high_draw: u64 = rand::random::<u64>();
            let low_draw: u64 = rand::random::<u64>();
            let close_draw: u64 = rand::random::<u64>();
            let volume_draw: u64 = rand::random::<u64>();
            let pt = Self::history_point(upper.as_str(), date, open_draw, high_draw, low_draw, close_draw, volume_draw);
            data.push(pt);
        }
        let h = StockHistory { symbol: upper, data };
        assert forall|k: int| 0 <= k < h.data@.len() - 1 implies #[trigger] h.data@[k + 1].date == h.data@[k].date + DAY_MILLIS by {
            assert(h.data@[k + 1].date == now - (days - 1 - (k + 1)) * DAY_MILLIS);
            assert(h.data@[k].date == now - (days - 1 - k) * DAY_MILLIS);
        }
        Ok(h)
    }

    /// Sums and ranks `stocks` (see `summarizes`), stamped with `timestamp`.
    pub fn summarize(stocks: &Vec<StockPrice>, timestamp: i64) -> (r: MarketSummary)
        requires
            total_volume(stocks@) <= u64::MAX,
            total_cap(stocks@) <= u64::MAX,
        ensures
            summarizes(r, stocks@),
            r.timestamp == timestamp,
    {
        let ghost s = stocks@;
        let n = stocks.len();
        let mut total_market_cap: u64 = 0;
        let mut total_vol: u64 = 0;
        let mut pct_keys: Vec<RatioKey> = Vec::new();
        let mut vol_keys: Vec<RatioKey> = Vec::new();
        let mut i: usize = 0;
        assert(s.take(0) =~= Seq::<StockPrice>::empty());
        while i < n
            invariant
                s == stocks@,
                n == s.len(),
                i <= n,
                total_volume(s) <= u64::MAX,
                total_cap(s) <= u64::MAX,
                total_vol == total_volume(s.take(i as int)),
                total_market_cap == total_cap(s.take(i as int)),
                pct_keys@ == percent_keys(s.take(i as int)),
                vol_keys@ == volume_keys(s.take(i as int)),
                forall|x: int| 0 <= x < pct_keys@.len() ==> key_ok(#[trigger] pct_keys@[x]),
                forall|x: int| 0 <= x < vol_keys@.len() ==> key_ok(#[trigger] vol_keys@[x]),
            decreases n - i,
        {
            proof {
                lemma_prefix_totals(s, i + 1);
                assert(s.take(i + 1).drop_last() =~= s.take(i as int));
            }
            let cap: u64 = match stocks[i].market_cap {
                Some(c) => c,
                None => 0,
            };
            total_market_cap = total_market_cap + cap;
            total_vol = total_vol + stocks[i].volume;
            pct_keys.push(ratio_key(&stocks[i]));
            vol_keys.push((stocks[i].volume as i128, 1i128));
            i = i + 1;
            proof {
                assert(pct_keys@ =~= percent_keys(s.take(i as int)));
                assert(vol_keys@ =~= volume_keys(s.take(i as int)));
            }
        }
        assert(s.take(n as int) =~= s);
        let gainer_idx = top_ranked(&pct_keys, true, 5);
        let loser_idx = top_ranked(&pct_keys, false, 5);
        let active_idx = top_ranked(&vol_keys, true, 5);
        proof {
            lemma_ranked_in_range(pct_keys@, true, gainer_idx@);
            lemma_ranked_in_range(pct_keys@, false, loser_idx@);
            lemma_ranked_in_range(vol_keys@, true, active_idx@);
        }
        let gainers = select(stocks, &gainer_idx);
        let losers = select(stocks, &loser_idx);
        let most_active = select(stocks, &active_idx);
        let r = MarketSummary {
            total_market_cap,
            total_volume: total_vol,
            gainers,
            losers,
            most_active,
            timestamp,
        };
        assert(ranking_prefix(percent_keys(s), true, gainer_idx@));
        assert(ranking_prefix(percent_keys(s), false, loser_idx@));
        assert(ranking_prefix(volume_keys(s), true, active_idx@));
        r
    }

    /// Fresh snapshots of eight popular symbols, summed and ranked.
    pub fn get_market_summary() -> (r: MarketSummary)
        ensures
            r.gainers@.len() == 5,
            r.losers@.len() == 5,
            r.most_active@.len() == 5,
            exists|s: Seq<StockPrice>|
                s.len() == 8 && (forall|i: int|
                    0 <= i < 8 ==> price_consistent(s[i], popular_symbols()[i])) && #[trigger] summarizes(
                    r,
                    s,
                ),
    {
        proof {
            reveal_strlit("AAPL");
            reveal_strlit("GOOGL");
            reveal_strlit("MSFT");
            reveal_strlit("TSLA");
            reveal_strlit("AMZN");
            reveal_strlit("NVDA");
            reveal_strlit("META");
            reveal_strlit("NFLX");
        }
        let mut stocks: Vec<StockPrice> = Vec::new();
        stocks.push(Self::draw_price("AAPL"));
        stocks.push(Self::draw_price("GOOGL"));
        stocks.push(Self::draw_price("MSFT"));
        stocks.push(Self::draw_price("TSLA"));
        stocks.push(Self::draw_price("AMZN"));
        stocks.push(Self::draw_price("NVDA"));
        stocks.push(Self::draw_price("META"));
        stocks.push(Self::draw_price("NFLX"));
        let ghost s = stocks@;
        proof {
            assert forall|i: int| 0 <= i < 8 implies price_consistent(s[i], popular_symbols()[i]) by {
            }
            assert forall|i: int| 0 <= i < s.len() implies s[i].volume < 11000000 && cap_of(s[i])
                < 1100000000 by {
                assert(price_consistent(s[i], popular_symbols()[i]));
            }
            lemma_totals_bounded(s);
        }
        let now = now_millis();
        let r = Self::summarize(&stocks, now);
        proof {
            let g = choose|idx: Seq<usize>|
                #[trigger] ranking_prefix(percent_keys(s), true, idx) && idx.len() == 5 && picked(r.gainers@, s, idx);
            let l = choose|idx: Seq<usize>|
                #[trigger] ranking_prefix(percent_keys(s), false, idx) && idx.len() == 5 && picked(r.losers@, s, idx);
            let a = choose|idx: Seq<usize>|
                #[trigger] ranking_prefix(volume_keys(s), true, idx) && idx.len() == 5 && picked(r.most_active@, s, idx);
        }
        r
    }

    /// Buys shares of `request.symbol`, upper-cased, in `store`, and returns the
    /// position as it now stands, priced with a fresh snapshot. A refused
    /// request changes nothing.
    pub fn add_to_portfolio(store: &mut PortfolioService, request: AddToPortfolioRequest) -> (r: Result<
        PortfolioItem,
        StoreError,
    >)
        requires
            old(store).wf(),
        ensures
            final(store).wf(),
            final(store).path() == old(store).path(),
            match r {
                Ok(item) => {
                    let t = upper_of(request.symbol@);
                    &&& !add_refused(old(store)@, t, request.shares, request.price_per_share)
                    &&& final(store)@ == after_add(old(store)@, t, request.shares, request.price_per_share)
                    &&& item_of(item, final(store)@[index_of(final(store)@, t)], item.current_price)
                    &&& market_base_price(t) - 500 <= item.current_price < market_base_price(t) + 500
                },
                Err(e) => add_refused(
                    old(store)@,
                    upper_of(request.symbol@),
                    request.shares,
                    request.price_per_share,
                ) && e == StoreError::InvalidInput && final(store)@ == old(store)@,
            },
    {
        let upper = to_upper(request.symbol.as_str());
        let ghost t = upper@;
        let ghost s = store@;
        let added = store.add_position(
            AddPositionRequest {
                ticker: upper.clone(),
                shares: request.shares,
                price_per_share: request.price_per_share,
            },
        );
        match added {
            Err(e) => Err(e),
            Ok(portfolio) => {
                proof {
                    lemma_after_add_holds(s, t, request.shares, request.price_per_share);
                }
                match find_position(&portfolio.positions, &upper) {
                    Some(i) => {
                        let snapshot = Self::get_stock_price(request.symbol.as_str());
                        Ok(PortfolioItem::from_position(&portfolio.positions[i], snapshot.price))
                    },
                    None => {
                        // the position was just added, so it is found
                        proof {
                            assert(false);
                        }
                        Err(StoreError::NotFound)
                    },
                }
            },
        }
    }

    /// Starts watching `request.symbol`, upper-cased, in `store`, and returns it
    /// with a fresh snapshot. An empty or blank symbol is refused, and so is a
    /// symbol already watched; a refusal changes nothing.
    pub fn add_to_watchlist(store: &mut WatchlistService, request: AddToWatchlistRequest) -> (r: Result<
        WatchlistItem,
        StoreError,
    >)
        requires
            old(store).wf(),
        ensures
            final(store).wf(),
            final(store).path() == old(store).path(),
            match r {
                Ok(item) => {
                    let t = upper_of(request.symbol@);
                    let base = market_base_price(t) as int;
                    &&& !blank(request.symbol@)
                    &&& !old(store)@.contains(t)
                    &&& final(store)@ == old(store)@.push(t)
                    &&& item.symbol@ == t
                    &&& -500 <= item.change < 500
                    &&& item.current_price == base + item.change
                    &&& item.change_percent == percent_of(item.change as int, base)
                },
                Err(e) => final(store)@ == old(store)@ && if blank(request.symbol@) {
                    e == StoreError::InvalidInput
                } else {
                    old(store)@.contains(upper_of(request.symbol@)) && e == StoreError::AlreadyExists
                },
            },
    {
        if is_blank(request.symbol.as_str()) {
            return Err(StoreError::InvalidInput);
        }
        let upper = to_upper(request.symbol.as_str());
        match store.add_ticker(AddWatchlistRequest { ticker: upper.clone() }) {
            Err(e) => Err(e),
            Ok(_) => {
                let snapshot = Self::get_stock_price(request.symbol.as_str());
                Ok(
                    WatchlistItem {
                        symbol: upper,
                        current_price: snapshot.price,
                        change: snapshot.change,
                        change_percent: snapshot.change_percent,
                    },
                )
            },
        }
    }

    /// The positions of `store`, each priced with a fresh snapshot of its
    /// ticker, upper-cased.
    pub fn get_portfolio(store: &PortfolioService) -> (r: Vec<PortfolioItem>)
        ensures
            r@.len() == store@.len(),
            forall|i: int|
                0 <= i < r@.len() ==> item_of(#[trigger] r@[i], store@[i], r@[i].current_price)
                    && market_base_price(upper_of(store@[i].0)) - 500 <= r@[i].current_price
                    < market_base_price(upper_of(store@[i].0)) + 500,
    {
        let portfolio = store.get_portfolio();
        let mut items: Vec<PortfolioItem> = Vec::new();
        let mut i: usize = 0;
        while i < portfolio.positions.len()
            invariant
                portfolio@ == store@,
                i <= portfolio.positions@.len(),
                items@.len() == i,
                forall|k: int|
                    0 <= k < i ==> item_of(#[trigger] items@[k], store@[k], items@[k].current_price)
                        && market_base_price(upper_of(store@[k].0)) - 500 <= items@[k].current_price
                        < market_base_price(upper_of(store@[k].0)) + 500,
            decreases portfolio.positions@.len() - i,
        {
            let snapshot = Self::get_stock_price(portfolio.positions[i].ticker.as_str());
            items.push(PortfolioItem::from_position(&portfolio.positions[i], snapshot.price));
            i = i + 1;
        }
        items
    }

    /// The tickers of `store`, each with a fresh snapshot of it, upper-cased.
    pub fn get_watchlist(store: &WatchlistService) -> (r: Vec<WatchlistItem>)
        ensures
            r@.len() == store@.len(),
            forall|i: int|
                0 <= i < r@.len() ==> {
                    let base = market_base_price(upper_of(store@[i])) as int;
                    &&& (#[trigger] r@[i]).symbol@ == store@[i]
                    &&& -500 <= r@[i].change < 500
                    &&& r@[i].current_price == base + r@[i].change
                    &&& r@[i].change_percent == percent_of(r@[i].change as int, base)
                },
    {
        let watchlist = store.get_watchlist();
        let mut items: Vec<WatchlistItem> = Vec::new();
        let mut i: usize = 0;
        while i < watchlist.tickers.len()
            invariant
                watchlist@ == store@,
                i <= watchlist.tickers@.len(),
                items@.len() == i,
                forall|k: int|
                    0 <= k < i ==> {
                        let base = market_base_price(upper_of(store@[k])) as int;
                        &&& (#[trigger] items@[k]).symbol@ == store@[k]
                        &&& -500 <= items@[k].change < 500
                        &&& items@[k].current_price == base + items@[k].change
                        &&& items@[k].change_percent == percent_of(items@[k].change as int, base)
                    },
            decreases watchlist.tickers@.len() - i,
        {
            let snapshot = Self::get_stock_price(watchlist.tickers[i].as_str());
            items.push(
                WatchlistItem {
                    symbol: watchlist.tickers[i].clone(),
                    current_price: snapshot.price,
                    change: snapshot.change,
                    change_percent: snapshot.change_percent,
                },
            );
            i = i + 1;
        }
        items
    }
}

} // verus!
