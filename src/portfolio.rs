use vstd::prelude::*;

use crate::models::{
    AddPositionRequest, Portfolio, Position, PositionView, RemovePositionRequest, StoreError,
};

verus! {

/// Some position in `s` has ticker `t`.
pub open spec fn holds(s: Seq<PositionView>, t: Seq<char>) -> bool {
    exists|i: int| 0 <= i < s.len() && s[i].0 == t
}

/// Where the position for `t` stands in `s`, or -1 when there is none.
pub open spec fn index_of(s: Seq<PositionView>, t: Seq<char>) -> int {
    if holds(s, t) {
        choose|i: int| 0 <= i < s.len() && s[i].0 == t
    } else {
        -1
    }
}

/// Every position holds shares, and no ticker appears twice.
pub open spec fn portfolio_wf(s: Seq<PositionView>) -> bool {
    &&& forall|i: int| 0 <= i < s.len() ==> s[i].1 > 0
    &&& forall|i: int, j: int| 0 <= i < j < s.len() ==> s[i].0 != s[j].0
}

/// The cost per share, rounded down, of `s1` shares bought at `c1` together
/// with `s2` shares bought at `c2`.
pub open spec fn weighted_average(s1: int, c1: int, s2: int, c2: int) -> int {
    (s1 * c1 + s2 * c2) / (s1 + s2)
}

/// Buying `n` shares of `t` at `price` is refused: a zero quantity or price,
/// or a share count that would pass `u32::MAX`.
pub open spec fn add_refused(s: Seq<PositionView>, t: Seq<char>, n: u32, price: u64) -> bool {
    ||| n == 0
    ||| price == 0
    ||| (holds(s, t) && s[index_of(s, t)].1 + n > u32::MAX)
}

/// The portfolio after buying `n` shares of `t` at `price`: an existing position
/// grows and its cost becomes the weighted average; a new one is appended.
pub open spec fn after_add(s: Seq<PositionView>, t: Seq<char>, n: u32, price: u64) -> Seq<
    PositionView,
> {
    if holds(s, t) {
        let i = index_of(s, t);
        s.update(
            i,
            (t, (s[i].1 + n) as u32, weighted_average(s[i].1 as int, s[i].2 as int, n as int, price as int) as u64),
        )
    } else {
        s.push((t, n, price))
    }
}

/// The portfolio after selling `n` of the shares of `t`, which it holds: a
/// position sold out is dropped, any other keeps its cost.
pub open spec fn after_remove(s: Seq<PositionView>, t: Seq<char>, n: u32) -> Seq<PositionView> {
    let i = index_of(s, t);
    if s[i].1 == n {
        s.remove(i)
    } else {
        s.update(i, (t, (s[i].1 - n) as u32, s[i].2))
    }
}

proof fn lemma_index_of_unique(s: Seq<PositionView>, t: Seq<char>, i: int)
    requires
        portfolio_wf(s),
        0 <= i < s.len(),
        s[i].0 == t,
    ensures
        holds(s, t),
        index_of(s, t) == i,
{
    assert(holds(s, t));
    let j = index_of(s, t);
    assert(0 <= j < s.len() && s[j].0 == t);
    if j != i {
        if j < i {
            assert(s[j].0 != s[i].0);
        } else {
            assert(s[i].0 != s[j].0);
        }
    }
}

proof fn lemma_weighted_average_bounds(s1: int, c1: int, s2: int, c2: int, m: int)
    requires
        s1 >= 0,
        s2 > 0,
        0 <= c1 <= m,
        0 <= c2 <= m,
    ensures
        0 <= weighted_average(s1, c1, s2, c2) <= m,
{
    assert(s1 * c1 <= s1 * m) by (nonlinear_arith)
        requires
            s1 >= 0,
            c1 <= m,
    ;
    assert(s2 * c2 <= s2 * m) by (nonlinear_arith)
        requires
            s2 >= 0,
            c2 <= m,
    ;
    assert(s1 * c1 >= 0 && s2 * c2 >= 0) by (nonlinear_arith)
        requires
            s1 >= 0,
            s2 >= 0,
            c1 >= 0,
            c2 >= 0,
    ;
    let num = s1 * c1 + s2 * c2;
    let den = s1 + s2;
    assert(num <= den * m) by (nonlinear_arith)
        requires
            num <= s1 * m + s2 * m,
            den == s1 + s2,
    ;
    assert(num / den <= m) by (nonlinear_arith)
        requires
            num <= den * m,
            den > 0,
            num >= 0,
    ;
    assert(num / den >= 0) by (nonlinear_arith)
        requires
            den > 0,
            num >= 0,
    ;
}

proof fn lemma_product_fits(a: u32, b: u64)
    ensures
        (a as int) * (b as int) <= (u32::MAX as int) * (u64::MAX as int),
        (a as int) * (b as int) >= 0,
{
    assert((a as int) * (b as int) <= (u32::MAX as int) * (u64::MAX as int)) by (nonlinear_arith)
        requires
            0 <= a <= u32::MAX,
            0 <= b <= u64::MAX,
    ;
    assert((a as int) * (b as int) >= 0) by (nonlinear_arith)
        requires
            0 <= a,
            0 <= b,
    ;
}

/// Finds the position for `ticker` among positions whose tickers are distinct.
pub(crate) fn find_position(positions: &Vec<Position>, ticker: &String) -> (r: Option<usize>)
    requires
        portfolio_wf(positions@.map_values(|p: Position| p@)),
    ensures
        ({
            let s = positions@.map_values(|p: Position| p@);
            match r {
                Some(i) => holds(s, ticker@) && i as int == index_of(s, ticker@),
                None => !holds(s, ticker@),
            }
        }),
{
    let ghost s = positions@.map_values(|p: Position| p@);
    let mut i: usize = 0;
    while i < positions.len()
        invariant
            i <= positions@.len(),
            s == positions@.map_values(|p: Position| p@),
            portfolio_wf(s),
            forall|k: int| 0 <= k < i ==> s[k].0 != ticker@,
        decreases positions@.len() - i,
    {
        if positions[i].ticker == *ticker {
            proof {
                lemma_index_of_unique(s, ticker@, i as int);
            }
            return Some(i);
        }
        i = i + 1;
    }
    None
}

/// The portfolio store: the positions of one backing document, kept free of
/// duplicate tickers and of empty positions.
pub struct PortfolioService {
    file_path: String,
    portfolio: Portfolio,
}

impl View for PortfolioService {
    type V = Seq<PositionView>;

    closed spec fn view(&self) -> Seq<PositionView> {
        self.portfolio@
    }
}

impl PortfolioService {
    /// Where the store's document lives.
    pub closed spec fn path(&self) -> Seq<char> {
        self.file_path@
    }

    pub open spec fn wf(&self) -> bool {
        portfolio_wf(self@)
    }

    /// An empty store backed by `data/portfolio.json`.
    pub fn new() -> (r: Self)
        ensures
            r.wf(),
            r@ == Seq::<PositionView>::empty(),
            r.path() == "data/portfolio.json"@,
    {
        let r = PortfolioService {
            file_path: "data/portfolio.json".to_owned(),
            portfolio: Portfolio { positions: Vec::new() },
        };
        assert(r@ =~= Seq::<PositionView>::empty());
        r
    }

    /// A store over a loaded portfolio; refused when that portfolio repeats a
    /// ticker or holds a position without shares.
    pub fn open(file_path: String, portfolio: Portfolio) -> (r: Result<Self, StoreError>)
        ensures
            match r {
                Ok(st) => portfolio_wf(portfolio@) && st.wf() && st@ == portfolio@ && st.path()
                    == file_path@,
                Err(e) => !portfolio_wf(portfolio@) && e == StoreError::CorruptData,
            },
    {
        let ghost s = portfolio@;
        let n = portfolio.positions.len();
        let mut i: usize = 0;
        while i < n
            invariant
                n == portfolio.positions@.len(),
                s == portfolio@,
                i <= n,
                forall|k: int| 0 <= k < i ==> s[k].1 > 0,
                forall|a: int, b: int| 0 <= a < b < n && a < i ==> s[a].0 != s[b].0,
            decreases n - i,
        {
            if portfolio.positions[i].shares == 0 {
                assert(s[i as int].1 == 0);
                return Err(StoreError::CorruptData);
            }
            let mut j: usize = i + 1;
            while j < n
                invariant
                    n == portfolio.positions@.len(),
                    s == portfolio@,
                    i < n,
                    i < j <= n,
                    forall|b: int| i < b < j ==> s[i as int].0 != s[b].0,
                decreases n - j,
            {
                if portfolio.positions[i].ticker == portfolio.positions[j].ticker {
                    assert(s[i as int].0 == s[j as int].0);
                    return Err(StoreError::CorruptData);
                }
                j = j + 1;
            }
            i = i + 1;
        }
        Ok(PortfolioService { file_path, portfolio })
    }

    /// The path of the store's document.
    pub fn file_path(&self) -> (r: &String)
        ensures
            r@ == self.path(),
    {
        &self.file_path
    }

    /// The positions held, in insertion order.
    pub fn get_portfolio(&self) -> (r: Portfolio)
        ensures
            r@ == self@,
    {
        self.portfolio.duplicate()
    }

    /// Buys `request.shares` shares of `request.ticker` at `request.price_per_share`
    /// cents each, and returns the new portfolio. A refused request changes nothing.
    pub fn add_position(&mut self, request: AddPositionRequest) -> (r: Result<Portfolio, StoreError>)
        requires
            old(self).wf(),
        ensures
            final(self).wf(),
            final(self).path() == old(self).path(),
            match r {
                Ok(p) => !add_refused(old(self)@, request.ticker@, request.shares, request.price_per_share)
                    && final(self)@ == after_add(old(self)@, request.ticker@, request.shares, request.price_per_share)
                    && p@ == final(self)@,
                Err(e) => add_refused(old(self)@, request.ticker@, request.shares, request.price_per_share)
                    && e == StoreError::InvalidInput && final(self)@ == old(self)@,
            },
    {
        let ghost s = self@;
        let n = request.shares;
        let price = request.price_per_share;
        if n == 0 || price == 0 {
            return Err(StoreError::InvalidInput);
        }
        match find_position(&self.portfolio.positions, &request.ticker) {
            Some(i) => {
                let held = self.portfolio.positions[i].shares;
                let cost = self.portfolio.positions[i].average_cost;
                if held > u32::MAX - n {
                    return Err(StoreError::InvalidInput);
                }
                proof {
                    lemma_product_fits(held, cost);
                    lemma_product_fits(n, price);
                }
                let total: u128 = held as u128 * cost as u128 + n as u128 * price as u128;
                let count: u32 = held + n;
                proof {
                    lemma_weighted_average_bounds(held as int, cost as int, n as int, price as int, u64::MAX as int);
                }
                let avg: u64 = (total / count as u128) as u64;
                let ticker = self.portfolio.positions[i].ticker.clone();
                self.portfolio.positions.set(i, Position { ticker, shares: count, average_cost: avg });
                proof {
                    let t = after_add(s, request.ticker@, n, price);
                    assert(self@ =~= t);
                    assert forall|a: int, b: int| 0 <= a < b < t.len() implies t[a].0 != t[b].0 by {
                        assert(s[a].0 != s[b].0);
                    }
                }
            },
            None => {
                self.portfolio.positions.push(
                    Position { ticker: request.ticker, shares: n, average_cost: price },
                );
                proof {
                    let t = after_add(s, request.ticker@, n, price);
                    assert(self@ =~= t);
                    assert forall|a: int, b: int| 0 <= a < b < t.len() implies t[a].0 != t[b].0 by {
                        if b < s.len() {
                            assert(s[a].0 != s[b].0);
                        } else {
                            assert(s[a].0 != request.ticker@);
                        }
                    }
                }
            },
        }
        Ok(self.portfolio.duplicate())
    }

    /// Sells `request.shares` shares of `request.ticker`, dropping the position
    /// when none are left, and returns the new portfolio. A refused request
    /// changes nothing.
    pub fn remove_position(&mut self, request: RemovePositionRequest) -> (r: Result<Portfolio, StoreError>)
        requires
            old(self).wf(),
        ensures
            final(self).wf(),
            final(self).path() == old(self).path(),
            match r {
                Ok(p) => holds(old(self)@, request.ticker@)
                    && request.shares <= old(self)@[index_of(old(self)@, request.ticker@)].1
                    && final(self)@ == after_remove(old(self)@, request.ticker@, request.shares)
                    && p@ == final(self)@,
                Err(e) => final(self)@ == old(self)@ && if !holds(old(self)@, request.ticker@) {
                    e == StoreError::NotFound
                } else {
                    e == StoreError::InsufficientShares
                        && old(self)@[index_of(old(self)@, request.ticker@)].1 < request.shares
                },
            },
    {
        let ghost s = self@;
        let n = request.shares;
        match find_position(&self.portfolio.positions, &request.ticker) {
            None => {
                return Err(StoreError::NotFound);
            },
            Some(i) => {
                let held = self.portfolio.positions[i].shares;
                if held < n {
                    return Err(StoreError::InsufficientShares);
                }
                if held == n {
                    self.portfolio.positions.remove(i);
                    proof {
                        let t = after_remove(s, request.ticker@, n);
                        assert(self@ =~= t);
                        assert forall|a: int, b: int| 0 <= a < b < t.len() implies t[a].0 != t[b].0 by {
                            if a < i {
                                if b < i {
                                    assert(s[a].0 != s[b].0);
                                } else {
                                    assert(s[a].0 != s[b + 1].0);
                                }
                            } else {
                                assert(s[a + 1].0 != s[b + 1].0);
                            }
                        }
                        assert forall|a: int| 0 <= a < t.len() implies t[a].1 > 0 by {
                            if a < i {
                                assert(s[a].1 > 0);
                            } else {
                                assert(s[a + 1].1 > 0);
                            }
                        }
                    }
                } else {
                    let ticker = self.portfolio.positions[i].ticker.clone();
                    let cost = self.portfolio.positions[i].average_cost;
                    self.portfolio.positions.set(i, Position { ticker, shares: held - n, average_cost: cost });
                    proof {
                        let t = after_remove(s, request.ticker@, n);
                        assert(self@ =~= t);
                        assert forall|a: int, b: int| 0 <= a < b < t.len() implies t[a].0 != t[b].0 by {
                            assert(s[a].0 != s[b].0);
                        }
                    }
                }
            },
        }
        Ok(self.portfolio.duplicate())
    }
}

/// After a purchase of `t` the portfolio holds `t`, with `n` more shares than before.
pub proof fn lemma_after_add_holds(s: Seq<PositionView>, t: Seq<char>, n: u32, price: u64)
    requires
        portfolio_wf(s),
        !add_refused(s, t, n, price),
    ensures
        holds(after_add(s, t, n, price), t),
        portfolio_wf(after_add(s, t, n, price)),
        after_add(s, t, n, price)[index_of(after_add(s, t, n, price), t)].1 == (if holds(s, t) {
            s[index_of(s, t)].1 + n
        } else {
            n as int
        }),
{
    let a = after_add(s, t, n, price);
    if holds(s, t) {
        let i = index_of(s, t);
        assert forall|x: int, y: int| 0 <= x < y < a.len() implies a[x].0 != a[y].0 by {
            assert(s[x].0 != s[y].0);
        }
        lemma_index_of_unique(a, t, i);
    } else {
        assert forall|x: int, y: int| 0 <= x < y < a.len() implies a[x].0 != a[y].0 by {
            if y < s.len() {
                assert(s[x].0 != s[y].0);
            } else {
                assert(s[x].0 != t);
            }
        }
        lemma_index_of_unique(a, t, s.len() as int);
    }
}

/// Buying shares of a ticker not yet held and then selling that many again
/// succeeds and gives back the portfolio as it was, without the ticker.
pub proof fn lemma_add_then_remove(s: Seq<PositionView>, t: Seq<char>, n: u32, price: u64)
    requires
        portfolio_wf(s),
        !holds(s, t),
        n > 0,
        price > 0,
    ensures
        !add_refused(s, t, n, price),
        holds(after_add(s, t, n, price), t),
        after_add(s, t, n, price)[index_of(after_add(s, t, n, price), t)].1 == n,
        after_remove(after_add(s, t, n, price), t, n) == s,
        !holds(after_remove(after_add(s, t, n, price), t, n), t),
{
    let a = after_add(s, t, n, price);
    assert(a == s.push((t, n, price)));
    assert forall|i: int| 0 <= i < a.len() implies a[i].1 > 0 by {
        if i < s.len() {
            assert(s[i].1 > 0);
        }
    }
    assert forall|i: int, j: int| 0 <= i < j < a.len() implies a[i].0 != a[j].0 by {
        if j < s.len() {
            assert(s[i].0 != s[j].0);
        } else {
            assert(s[i].0 != t);
        }
    }
    lemma_index_of_unique(a, t, s.len() as int);
    assert(after_remove(a, t, n) =~= s);
}

} // verus!
