use finance_api::aggregate::{calculate_total_gain_loss_percent, PortfolioItem};
use finance_api::market::FinanceService;
use finance_api::models::{
    AddPositionRequest, AddWatchlistRequest, Portfolio, Position, RemovePositionRequest,
    RemoveWatchlistRequest, StoreError, Watchlist,
};
use finance_api::portfolio::PortfolioService;
use finance_api::watchlist::WatchlistService;

fn add(store: &mut PortfolioService, ticker: &str, shares: u32, price: u64) -> Result<Portfolio, StoreError> {
    store.add_position(AddPositionRequest { ticker: ticker.to_string(), shares, price_per_share: price })
}

fn remove(store: &mut PortfolioService, ticker: &str, shares: u32) -> Result<Portfolio, StoreError> {
    store.remove_position(RemovePositionRequest { ticker: ticker.to_string(), shares })
}

fn tickers(p: &Portfolio) -> Vec<String> {
    p.positions.iter().map(|x| x.ticker.clone()).collect()
}

#[test]
fn new_store_is_empty_and_backed_by_data_file() {
    let store = PortfolioService::new();
    assert!(store.get_portfolio().positions.is_empty());
    assert_eq!(store.file_path(), "data/portfolio.json");
    let w = WatchlistService::new();
    assert!(w.get_watchlist().tickers.is_empty());
    assert_eq!(w.file_path(), "data/watchlist.json");
}

#[test]
fn add_then_list_prices_the_position() {
    let mut store = PortfolioService::new();
    add(&mut store, "AAPL", 10, 10000).unwrap();
    let items = FinanceService::get_portfolio(&store);
    assert_eq!(items.len(), 1);
    let item = &items[0];
    assert_eq!(item.symbol, "AAPL");
    assert_eq!(item.shares, 10);
    assert_eq!(item.average_price, 10000);
    assert_eq!(item.total_value, 10 * item.current_price as i128);
    assert!(item.current_price >= 15000 - 500 && item.current_price < 15000 + 500);
}

#[test]
fn add_then_remove_same_count_drops_ticker() {
    let mut store = PortfolioService::new();
    add(&mut store, "MSFT", 3, 30000).unwrap();
    add(&mut store, "AAPL", 10, 10000).unwrap();
    let p = remove(&mut store, "AAPL", 10).unwrap();
    assert_eq!(tickers(&p), vec!["MSFT".to_string()]);
    assert_eq!(p.positions[0].shares, 3);
}

#[test]
fn remove_more_than_held_is_refused_and_changes_nothing() {
    let mut store = PortfolioService::new();
    add(&mut store, "AAPL", 5, 10000).unwrap();
    assert_eq!(remove(&mut store, "AAPL", 6).unwrap_err(), StoreError::InsufficientShares);
    let p = store.get_portfolio();
    assert_eq!(tickers(&p), vec!["AAPL".to_string()]);
    assert_eq!(p.positions[0].shares, 5);
}

#[test]
fn remove_unknown_ticker_is_not_found() {
    let mut store = PortfolioService::new();
    assert_eq!(remove(&mut store, "TSLA", 1).unwrap_err(), StoreError::NotFound);
}

#[test]
fn partial_remove_keeps_cost() {
    let mut store = PortfolioService::new();
    add(&mut store, "AAPL", 5, 12345).unwrap();
    let p = remove(&mut store, "AAPL", 2).unwrap();
    assert_eq!(p.positions[0].shares, 3);
    assert_eq!(p.positions[0].average_cost, 12345);
}

#[test]
fn adding_to_a_position_averages_its_cost() {
    let mut store = PortfolioService::new();
    add(&mut store, "AAPL", 10, 10000).unwrap();
    let p = add(&mut store, "AAPL", 5, 13001).unwrap();
    assert_eq!(p.positions.len(), 1);
    assert_eq!(p.positions[0].shares, 15);
    // (10 * 10000 + 5 * 13001) / 15 = 165005 / 15 = 11000 (rounded down)
    assert_eq!(p.positions[0].average_cost, 11000);
}

#[test]
fn zero_shares_or_price_is_invalid() {
    let mut store = PortfolioService::new();
    assert_eq!(add(&mut store, "AAPL", 0, 100).unwrap_err(), StoreError::InvalidInput);
    assert_eq!(add(&mut store, "AAPL", 1, 0).unwrap_err(), StoreError::InvalidInput);
    assert!(store.get_portfolio().positions.is_empty());
}

#[test]
fn share_count_overflow_is_invalid() {
    let mut store = PortfolioService::new();
    add(&mut store, "AAPL", u32::MAX, 1).unwrap();
    assert_eq!(add(&mut store, "AAPL", 1, 1).unwrap_err(), StoreError::InvalidInput);
    assert_eq!(store.get_portfolio().positions[0].shares, u32::MAX);
}

#[test]
fn open_refuses_duplicate_or_empty_positions() {
    let dup = Portfolio {
        positions: vec![
            Position { ticker: "A".to_string(), shares: 1, average_cost: 1 },
            Position { ticker: "A".to_string(), shares: 2, average_cost: 1 },
        ],
    };
    assert_eq!(PortfolioService::open("p.json".to_string(), dup).err(), Some(StoreError::CorruptData));
    let empty = Portfolio { positions: vec![Position { ticker: "A".to_string(), shares: 0, average_cost: 1 }] };
    assert_eq!(PortfolioService::open("p.json".to_string(), empty).err(), Some(StoreError::CorruptData));
    let dupw = Watchlist { tickers: vec!["A".to_string(), "B".to_string(), "A".to_string()] };
    assert_eq!(WatchlistService::open("w.json".to_string(), dupw).err(), Some(StoreError::CorruptData));
}

#[test]
fn persisted_portfolio_reloads_equal() {
    let mut store = PortfolioService::new();
    add(&mut store, "AAPL", 10, 10000).unwrap();
    add(&mut store, "NVDA", 2, 48000).unwrap();
    let saved = store.get_portfolio();
    let reloaded = PortfolioService::open("data/portfolio.json".to_string(), saved).ok().unwrap();
    let a = store.get_portfolio();
    let b = reloaded.get_portfolio();
    assert_eq!(tickers(&a), tickers(&b));
    for (x, y) in a.positions.iter().zip(b.positions.iter()) {
        assert_eq!((x.shares, x.average_cost), (y.shares, y.average_cost));
    }
    let mut w = WatchlistService::new();
    w.add_ticker(AddWatchlistRequest { ticker: "AAPL".to_string() }).unwrap();
    w.add_ticker(AddWatchlistRequest { ticker: "MSFT".to_string() }).unwrap();
    let w2 = WatchlistService::open("data/watchlist.json".to_string(), w.get_watchlist()).ok().unwrap();
    assert_eq!(w2.get_watchlist().tickers, w.get_watchlist().tickers);
}

#[test]
fn watchlist_add_twice_is_refused() {
    let mut w = WatchlistService::new();
    w.add_ticker(AddWatchlistRequest { ticker: "AAPL".to_string() }).unwrap();
    let err = w.add_ticker(AddWatchlistRequest { ticker: "AAPL".to_string() }).err();
    assert_eq!(err, Some(StoreError::AlreadyExists));
    assert_eq!(w.get_watchlist().tickers.len(), 1);
}

#[test]
fn watchlist_remove() {
    let mut w = WatchlistService::new();
    w.add_ticker(AddWatchlistRequest { ticker: "AAPL".to_string() }).unwrap();
    w.add_ticker(AddWatchlistRequest { ticker: "TSLA".to_string() }).unwrap();
    let l = w.remove_ticker(RemoveWatchlistRequest { ticker: "AAPL".to_string() }).ok().unwrap();
    assert_eq!(l.tickers, vec!["TSLA".to_string()]);
    let err = w.remove_ticker(RemoveWatchlistRequest { ticker: "AAPL".to_string() }).err();
    assert_eq!(err, Some(StoreError::NotFound));
}

#[test]
fn empty_portfolio_gain_percent_is_zero() {
    let items: Vec<PortfolioItem> = Vec::new();
    assert_eq!(calculate_total_gain_loss_percent(&items), 0);
}
