use vstd::prelude::*;

verus! {

/// The mathematical form of a position: ticker, share count, average cost in cents.
pub type PositionView = (Seq<char>, u32, u64);

/// A held quantity of shares of one ticker, with its average acquisition cost in cents.
#[derive(Debug)]
pub struct Position {
    pub ticker: String,
    pub shares: u32,
    pub average_cost: u64,
}

impl View for Position {
    type V = PositionView;

    open spec fn view(&self) -> PositionView {
        (self.ticker@, self.shares, self.average_cost)
    }
}

impl Position {
    /// A copy with the same ticker, share count and cost.
    pub fn duplicate(&self) -> (r: Position)
        ensures
            r@ == self@,
    {
        Position { ticker: self.ticker.clone(), shares: self.shares, average_cost: self.average_cost }
    }
}

/// The positions held, in insertion order.
#[derive(Debug)]
pub struct Portfolio {
    pub positions: Vec<Position>,
}

impl View for Portfolio {
    type V = Seq<PositionView>;

    open spec fn view(&self) -> Seq<PositionView> {
        self.positions@.map_values(|p: Position| p@)
    }
}

impl Portfolio {
    /// A copy holding the same positions in the same order.
    pub fn duplicate(&self) -> (r: Portfolio)
        ensures
            r@ == self@,
    {
        let mut out: Vec<Position> = Vec::new();
        let mut i: usize = 0;
        while i < self.positions.len()
            invariant
                i <= self.positions@.len(),
                out@.len() == i,
                forall|k: int| 0 <= k < i ==> out@[k]@ == self.positions@[k]@,
            decreases self.positions@.len() - i,
        {
            out.push(self.positions[i].duplicate());
            i = i + 1;
        }
        let r = Portfolio { positions: out };
        assert(r@ =~= self@);
        r
    }
}

/// The watched tickers, in insertion order.
#[derive(Debug)]
pub struct Watchlist {
    pub tickers: Vec<String>,
}

impl View for Watchlist {
    type V = Seq<Seq<char>>;

    open spec fn view(&self) -> Seq<Seq<char>> {
        self.tickers@.map_values(|t: String| t@)
    }
}

impl Watchlist {
    /// A copy holding the same tickers in the same order.
    pub fn duplicate(&self) -> (r: Watchlist)
        ensures
            r@ == self@,
    {
        let mut out: Vec<String> = Vec::new();
        let mut i: usize = 0;
        while i < self.tickers.len()
            invariant
                i <= self.tickers@.len(),
                out@.len() == i,
                forall|k: int| 0 <= k < i ==> out@[k]@ == self.tickers@[k]@,
            decreases self.tickers@.len() - i,
        {
            out.push(self.tickers[i].clone());
            i = i + 1;
        }
        let r = Watchlist { tickers: out };
        assert(r@ =~= self@);
        r
    }
}

/// Asks to buy `shares` shares of `ticker` at `price_per_share` cents each.
pub struct AddPositionRequest {
    pub ticker: String,
    pub shares: u32,
    pub price_per_share: u64,
}

/// Asks to sell `shares` shares of `ticker`.
pub struct RemovePositionRequest {
    pub ticker: String,
    pub shares: u32,
}

/// Asks to start watching `ticker`.
pub struct AddWatchlistRequest {
    pub ticker: String,
}

/// Asks to stop watching `ticker`.
pub struct RemoveWatchlistRequest {
    pub ticker: String,
}

/// Why a store operation was refused.
#[derive(Debug, PartialEq, Eq, Structural, Clone, Copy)]
pub enum StoreError {
    /// A quantity or price was zero, or a share count would overflow.
    InvalidInput,
    /// The ticker is not in the collection.
    NotFound,
    /// The ticker is already in the collection.
    AlreadyExists,
    /// More shares were asked for than are held.
    InsufficientShares,
    /// A loaded collection breaks the store's invariant (a duplicate ticker,
    /// or a position with no shares).
    CorruptData,
}

} // verus!
