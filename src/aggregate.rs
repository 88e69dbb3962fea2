use vstd::prelude::*;

use crate::models::{Position, PositionView};

verus! {

/// `a / b` rounded toward zero, for `b > 0`.
pub open spec fn div_trunc(a: int, b: int) -> int {
    if a >= 0 {
        a / b
    } else {
        -((-a) / b)
    }
}

/// `num * 10000 / den` rounded toward zero: a ratio in hundredths of a percent.
pub fn scaled_ratio(num: i128, den: i128) -> (r: i128)
    requires
        den > 0,
        -i128::MAX <= num * 10000 <= i128::MAX,
    ensures
        r == div_trunc(num * 10000, den as int),
{
    let scaled: i128 = num * 10000;
    if scaled >= 0 {
        let q: u128 = scaled as u128 / den as u128;
        assert(q <= scaled) by (nonlinear_arith)
            requires
                q == scaled / den,
                scaled >= 0,
                den >= 1,
        ;
        q as i128
    } else {
        let m: i128 = -scaled;
        let q: u128 = m as u128 / den as u128;
        assert(q <= m) by (nonlinear_arith)
            requires
                q == m / den,
                m >= 0,
                den >= 1,
        ;
        -(q as i128)
    }
}

/// `x` fits an `i128` and so does its negation.
pub open spec fn fits(x: int) -> bool {
    -i128::MAX <= x <= i128::MAX
}

/// A position priced at `current_price` cents: its current value, its gain or
/// loss, and that gain or loss in hundredths of a percent of the average cost
/// (0 when the cost is 0).
#[derive(Debug)]
pub struct PortfolioItem {
    pub symbol: String,
    pub shares: u32,
    pub average_price: u64,
    pub current_price: u64,
    pub total_value: i128,
    pub gain_loss: i128,
    pub gain_loss_percent: i128,
}

/// `item` is the position `p` priced at `price`.
pub open spec fn item_of(item: PortfolioItem, p: PositionView, price: u64) -> bool {
    &&& item.symbol@ == p.0
    &&& item.shares == p.1
    &&& item.average_price == p.2
    &&& item.current_price == price
    &&& item.total_value == p.1 * price
    &&& item.gain_loss == p.1 * (price - p.2)
    &&& item.gain_loss_percent == if p.2 == 0 {
        0
    } else {
        div_trunc((price - p.2) * 10000, p.2 as int)
    }
}

proof fn lemma_item_ranges(shares: u32, cost: u64, price: u64)
    ensures
        0 <= shares * price <= u32::MAX * u64::MAX,
        -(u32::MAX * u64::MAX) <= shares * (price - cost) <= u32::MAX * u64::MAX,
{
    assert(0 <= shares * price <= u32::MAX * u64::MAX) by (nonlinear_arith)
        requires
            0 <= shares <= u32::MAX,
            0 <= price <= u64::MAX,
    ;
    assert(-(u32::MAX * u64::MAX) <= shares * (price - cost) <= u32::MAX * u64::MAX)
        by (nonlinear_arith)
        requires
            0 <= shares <= u32::MAX,
            -u64::MAX <= price - cost <= u64::MAX,
    ;
}

impl PortfolioItem {
    /// The figures of `position` at the current price `current_price`.
    pub fn from_position(position: &Position, current_price: u64) -> (r: PortfolioItem)
        ensures
            item_of(r, position@, current_price),
    {
        let shares = position.shares;
        let cost = position.average_cost;
        proof {
            lemma_item_ranges(shares, cost, current_price);
        }
        let diff: i128 = current_price as i128 - cost as i128;
        let total_value: i128 = shares as i128 * current_price as i128;
        let gain_loss: i128 = shares as i128 * diff;
        let gain_loss_percent: i128 = if cost == 0 {
            0
        } else {
            scaled_ratio(diff, cost as i128)
        };
        PortfolioItem {
            symbol: position.ticker.clone(),
            shares,
            average_price: cost,
            current_price,
            total_value,
            gain_loss,
            gain_loss_percent,
        }
    }
}

/// The sum of the current values of `s`.
pub open spec fn total_value(s: Seq<PortfolioItem>) -> int
    decreases s.len(),
{
    if s.len() == 0 {
        0
    } else {
        total_value(s.drop_last()) + s.last().total_value
    }
}

/// The sum of the gains and losses of `s`.
pub open spec fn total_gain_loss(s: Seq<PortfolioItem>) -> int
    decreases s.len(),
{
    if s.len() == 0 {
        0
    } else {
        total_gain_loss(s.drop_last()) + s.last().gain_loss
    }
}

/// The sum of `shares * average_price` over `s`: what was paid.
pub open spec fn total_invested(s: Seq<PortfolioItem>) -> int
    decreases s.len(),
{
    if s.len() == 0 {
        0
    } else {
        total_invested(s.drop_last()) + s.last().shares * s.last().average_price
    }
}

/// Every running sum of current values over `s`, from the front, fits an `i128`.
pub open spec fn value_sums_fit(s: Seq<PortfolioItem>) -> bool {
    forall|i: int| 0 <= i <= s.len() ==> fits(total_value(#[trigger] s.take(i)))
}

/// Every running sum of gains and losses over `s`, from the front, fits an `i128`.
pub open spec fn gain_sums_fit(s: Seq<PortfolioItem>) -> bool {
    forall|i: int| 0 <= i <= s.len() ==> fits(total_gain_loss(#[trigger] s.take(i)))
}

proof fn lemma_invested_prefix(s: Seq<PortfolioItem>, i: int)
    requires
        0 <= i <= s.len(),
    ensures
        0 <= total_invested(s.take(i)) <= total_invested(s),
    decreases s.len(),
{
    if s.len() > 0 {
        let l = s.last();
        assert(l.shares * l.average_price >= 0) by (nonlinear_arith)
            requires
                l.shares >= 0,
                l.average_price >= 0,
        ;
        if i < s.len() {
            lemma_invested_prefix(s.drop_last(), i);
            assert(s.drop_last().take(i) =~= s.take(i));
        } else {
            lemma_invested_prefix(s.drop_last(), i - 1);
            assert(s.drop_last().take(i - 1) =~= s.drop_last());
            assert(s.take(i) =~= s);
        }
    } else {
        assert(s.take(i) =~= s);
    }
}

/// An empty portfolio has invested nothing, so its gain or loss percentage is
/// 0 and asks for no bound on its sums.
pub proof fn lemma_empty_portfolio_invested(s: Seq<PortfolioItem>)
    requires
        s.len() == 0,
    ensures
        total_invested(s) == 0,
{
}

/// The current value of the whole portfolio.
pub fn calculate_total_portfolio_value(portfolio: &Vec<PortfolioItem>) -> (r: i128)
    requires
        value_sums_fit(portfolio@),
    ensures
        r == total_value(portfolio@),
{
    let ghost s = portfolio@;
    let mut acc: i128 = 0;
    let mut i: usize = 0;
    assert(s.take(0) =~= Seq::<PortfolioItem>::empty());
    while i < portfolio.len()
        invariant
            s == portfolio@,
            value_sums_fit(s),
            i <= s.len(),
            acc == total_value(s.take(i as int)),
        decreases s.len() - i,
    {
        assert(s.take(i + 1).drop_last() =~= s.take(i as int));
        assert(fits(total_value(s.take(i + 1))));
        acc = acc + portfolio[i].total_value;
        i = i + 1;
    }
    assert(s.take(s.len() as int) =~= s);
    acc
}

/// The gain or loss of the whole portfolio.
pub fn calculate_total_gain_loss(portfolio: &Vec<PortfolioItem>) -> (r: i128)
    requires
        gain_sums_fit(portfolio@),
    ensures
        r == total_gain_loss(portfolio@),
{
    let ghost s = portfolio@;
    let mut acc: i128 = 0;
    let mut i: usize = 0;
    assert(s.take(0) =~= Seq::<PortfolioItem>::empty());
    while i < portfolio.len()
        invariant
            s == portfolio@,
            gain_sums_fit(s),
            i <= s.len(),
            acc == total_gain_loss(s.take(i as int)),
        decreases s.len() - i,
    {
        assert(s.take(i + 1).drop_last() =~= s.take(i as int));
        assert(fits(total_gain_loss(s.take(i + 1))));
        acc = acc + portfolio[i].gain_loss;
        i = i + 1;
    }
    assert(s.take(s.len() as int) =~= s);
    acc
}

/// What was paid for the whole portfolio.
pub fn calculate_total_invested(portfolio: &Vec<PortfolioItem>) -> (r: i128)
    requires
        total_invested(portfolio@) <= i128::MAX,
    ensures
        r == total_invested(portfolio@),
{
    let ghost s = portfolio@;
    let mut acc: i128 = 0;
    let mut i: usize = 0;
    assert(s.take(0) =~= Seq::<PortfolioItem>::empty());
    while i < portfolio.len()
        invariant
            s == portfolio@,
            total_invested(s) <= i128::MAX,
            i <= s.len(),
            acc == total_invested(s.take(i as int)),
        decreases s.len() - i,
    {
        assert(s.take(i + 1).drop_last() =~= s.take(i as int));
        proof {
            lemma_invested_prefix(s, i + 1);
        }
        proof {
            lemma_item_ranges(portfolio[i as int].shares, 0, portfolio[i as int].average_price);
        }
        acc = acc + portfolio[i].shares as i128 * portfolio[i].average_price as i128;
        i = i + 1;
    }
    assert(s.take(s.len() as int) =~= s);
    acc
}

/// The gain or loss of the whole portfolio in hundredths of a percent of what
/// was paid, rounded toward zero; 0 when nothing was paid.
pub fn calculate_total_gain_loss_percent(portfolio: &Vec<PortfolioItem>) -> (r: i128)
    requires
        total_invested(portfolio@) <= i128::MAX,
        total_invested(portfolio@) > 0 ==> gain_sums_fit(portfolio@) && fits(
            total_gain_loss(portfolio@) * 10000,
        ),
    ensures
        r == if total_invested(portfolio@) > 0 {
            div_trunc(total_gain_loss(portfolio@) * 10000, total_invested(portfolio@))
        } else {
            0
        },
        total_invested(portfolio@) == 0 ==> r == 0,
        portfolio@.len() == 0 ==> r == 0,
{
    let invested = calculate_total_invested(portfolio);
    if invested > 0 {
        let gain = calculate_total_gain_loss(portfolio);
        scaled_ratio(gain, invested)
    } else {
        0
    }
}

} // verus!
