use finance_api::aggregate::{
    calculate_total_gain_loss, calculate_total_gain_loss_percent, calculate_total_invested,
    calculate_total_portfolio_value, scaled_ratio, PortfolioItem,
};
use finance_api::market::{
    AddToPortfolioRequest, AddToWatchlistRequest, FinanceService, HistoryQuery, MAX_HISTORY_DAYS,
};
use finance_api::models::{Position, StoreError};
use finance_api::portfolio::PortfolioService;
use finance_api::quotes::{base_price_cents, validate_stock_symbol, ResearchService};
use finance_api::watchlist::WatchlistService;

fn pos(t: &str, shares: u32, cost: u64) -> Position {
    Position { ticker: t.to_string(), shares, average_cost: cost }
}

#[test]
fn item_figures() {
    let item = PortfolioItem::from_position(&pos("AAPL", 10, 10000), 12550);
    assert_eq!(item.total_value, 125500);
    assert_eq!(item.gain_loss, 25500);
    assert_eq!(item.gain_loss_percent, 2550);
    let loss = PortfolioItem::from_position(&pos("X", 3, 300), 299);
    assert_eq!(loss.gain_loss, -3);
    assert_eq!(loss.gain_loss_percent, -33);
    let free = PortfolioItem::from_position(&pos("X", 3, 0), 299);
    assert_eq!(free.gain_loss_percent, 0);
}

#[test]
fn portfolio_totals() {
    let items = vec![
        PortfolioItem::from_position(&pos("A", 10, 10000), 11000),
        PortfolioItem::from_position(&pos("B", 4, 5000), 4000),
    ];
    assert_eq!(calculate_total_portfolio_value(&items), 110000 + 16000);
    assert_eq!(calculate_total_gain_loss(&items), 10000 - 4000);
    assert_eq!(calculate_total_invested(&items), 120000);
    // 6000 / 120000 = 5.00 %
    assert_eq!(calculate_total_gain_loss_percent(&items), 500);
}

#[test]
fn scaled_ratio_rounds_toward_zero() {
    assert_eq!(scaled_ratio(1, 3), 3333);
    assert_eq!(scaled_ratio(-1, 3), -3333);
    assert_eq!(scaled_ratio(0, 7), 0);
}

#[test]
fn base_prices() {
    assert_eq!(base_price_cents("AAPL"), 19134);
    assert_eq!(base_price_cents("NFLX"), 48509);
    assert_eq!(base_price_cents("aapl"), 10000);
    assert_eq!(base_price_cents("ZZZ"), 10000);
}

#[test]
fn mock_quote_percent_is_change_over_base() {
    let rs = ResearchService::new();
    let q = rs.get_mock_quote("AAPL", 0);
    assert_eq!(q.change, -500);
    assert_eq!(q.price, 18634);
    assert_eq!(q.percent_change, -261);
    let q = rs.get_mock_quote("ZZZ", 999);
    assert_eq!(q.change, 499);
    assert_eq!(q.price, 10499);
    assert_eq!(q.percent_change, 499);
    let q = rs.get_mock_quote("ZZZ", 1000);
    assert_eq!(q.change, -500);
}

#[test]
fn live_quote_is_upper_cased_and_consistent() {
    let rs = ResearchService::new();
    let q = rs.get_stock_quote("aapl");
    assert_eq!(q.ticker, "AAPL");
    assert!(q.change >= -500 && q.change < 500);
    assert_eq!(q.price as i64, 19134 + q.change);
    let lhs = q.change as i128 * 10000 - q.percent_change as i128 * 19134;
    assert!(lhs.abs() < 19134);
}

#[test]
fn symbol_validation() {
    assert!(validate_stock_symbol("AAPL"));
    assert!(validate_stock_symbol("brk1"));
    assert!(!validate_stock_symbol(""));
    assert!(!validate_stock_symbol("   "));
    assert!(!validate_stock_symbol("AB CD"));
    assert!(!validate_stock_symbol("AB!"));
    assert!(!validate_stock_symbol("BRK.B"));
    assert!(!validate_stock_symbol("ABCDEFGHIJK"));
    assert!(validate_stock_symbol("ABCDEFGHIJ"));
}

#[test]
fn price_from_draws_exact() {
    let p = FinanceService::price_from_draws("MSFT", 600, 5, 999, 3, 42);
    assert_eq!(p.symbol, "MSFT");
    assert_eq!(p.change, 100);
    assert_eq!(p.price, 30100);
    assert_eq!(p.change_percent, 33);
    assert_eq!(p.volume, 1000005);
    assert_eq!(p.market_cap, Some(100000500));
    assert_eq!(p.high_24h, Some(30100 + 499));
    assert_eq!(p.low_24h, Some(30097));
    assert_eq!(p.open, Some(30000));
    assert_eq!(p.previous_close, Some(29900));
    let g = FinanceService::price_from_draws("GOOGL", 999, 0, 500, 500, 0);
    assert_eq!(g.change, 499);
    assert_eq!(g.price, 280499);
    assert_eq!(g.high_24h, Some(280499));
    assert_eq!(g.low_24h, Some(280499));
    assert_eq!(p.timestamp, 42);
}

#[test]
fn live_price_is_upper_cased() {
    let p = FinanceService::get_stock_price("tsla");
    assert_eq!(p.symbol, "TSLA");
    assert_eq!(p.open, Some(80000));
    assert!(p.change >= -500 && p.change < 500);
    assert!(p.volume >= 1000000 && p.volume < 11000000);
}

#[test]
fn history_point_exact() {
    let pt = FinanceService::history_point("ZZZ", 7, 1000, 10, 20, 5, 0);
    assert_eq!(pt.date, 7);
    assert_eq!(pt.open, 10000);
    assert_eq!(pt.high, 10010);
    assert_eq!(pt.low, 9980);
    assert_eq!(pt.close, 9985);
    assert_eq!(pt.volume, 1000000);
    let flat = FinanceService::history_point("AMZN", 0, 0, 0, 0, 77, 0);
    assert_eq!(flat.open, 330000 - 1000);
    assert_eq!((flat.high, flat.low, flat.close), (329000, 329000, 329000));
}

#[test]
fn history_length_and_order() {
    let h = FinanceService::get_stock_history("nvda", 30).ok().unwrap();
    assert_eq!(h.symbol, "NVDA");
    assert_eq!(h.data.len(), 30);
    for w in h.data.windows(2) {
        assert_eq!(w[1].date - w[0].date, 86400000);
    }
    for pt in &h.data {
        assert!(pt.low <= pt.close && pt.close <= pt.high);
    }
    assert_eq!(FinanceService::get_stock_history("nvda", 0).ok().unwrap().data.len(), 0);
    assert_eq!(FinanceService::get_stock_history("nvda", MAX_HISTORY_DAYS).ok().unwrap().data.len(), 365);
    assert!(FinanceService::get_stock_history("nvda", 366).is_err());
}

#[test]
fn history_query_default() {
    assert_eq!(HistoryQuery { days: None }.days_or_default(), 30);
    assert_eq!(HistoryQuery { days: Some(7) }.days_or_default(), 7);
}

#[test]
fn add_to_portfolio_upper_cases_and_prices() {
    let mut store = PortfolioService::new();
    let req = AddToPortfolioRequest { symbol: "aapl".to_string(), shares: 2, price_per_share: 15000 };
    let item = FinanceService::add_to_portfolio(&mut store, req).ok().unwrap();
    assert_eq!(item.symbol, "AAPL");
    assert_eq!(item.shares, 2);
    assert_eq!(item.total_value, 2 * item.current_price as i128);
    assert_eq!(item.gain_loss, 2 * (item.current_price as i128 - 15000));
    let bad = AddToPortfolioRequest { symbol: "aapl".to_string(), shares: 0, price_per_share: 15000 };
    assert_eq!(FinanceService::add_to_portfolio(&mut store, bad).err(), Some(StoreError::InvalidInput));
}

#[test]
fn add_to_watchlist_upper_cases() {
    let mut store = WatchlistService::new();
    let item = FinanceService::add_to_watchlist(&mut store, AddToWatchlistRequest { symbol: "msft".to_string() })
        .ok()
        .unwrap();
    assert_eq!(item.symbol, "MSFT");
    assert_eq!(item.current_price as i64, 30000 + item.change);
    let again = FinanceService::add_to_watchlist(&mut store, AddToWatchlistRequest { symbol: "MSFT".to_string() });
    assert_eq!(again.err(), Some(StoreError::AlreadyExists));
    for blank in ["", "   ", "\t\n"] {
        let r = FinanceService::add_to_watchlist(&mut store, AddToWatchlistRequest { symbol: blank.to_string() });
        assert_eq!(r.err(), Some(StoreError::InvalidInput));
    }
    let items = FinanceService::get_watchlist(&store);
    assert_eq!(items.len(), 1);
    assert_eq!(items[0].symbol, "MSFT");
}
