use finance_api::market::{top_ranked, FinanceService, StockPrice};

fn stock(symbol: &str, change_draw: u64, volume_draw: u64) -> StockPrice {
    FinanceService::price_from_draws(symbol, change_draw, volume_draw, 0, 0, 0)
}

fn symbols(v: &[StockPrice]) -> Vec<String> {
    v.iter().map(|s| s.symbol.clone()).collect()
}

#[test]
fn top_ranked_is_stable() {
    let keys: Vec<(i128, i128)> = vec![(5, 1), (9, 1), (10, 2), (1, 1), (18, 2), (3, 1)];
    assert_eq!(top_ranked(&keys, true, 4), vec![1, 4, 0, 2]);
    assert_eq!(top_ranked(&keys, false, 3), vec![3, 5, 0]);
    assert_eq!(top_ranked(&keys, true, 10).len(), 6);
    assert_eq!(top_ranked(&Vec::new(), true, 5), Vec::<usize>::new());
    // 2/3 against 3/5 compares the ratios, not their integer parts
    assert_eq!(top_ranked(&vec![(3, 5), (2, 3)], true, 2), vec![1, 0]);
}

#[test]
fn summarize_ranks_and_sums() {
    // change draws 500 + c give a change of c cents
    let stocks = vec![
        stock("A", 600, 10),
        stock("B", 400, 30),
        stock("C", 700, 20),
        stock("D", 500, 30),
        stock("E", 100, 0),
        stock("F", 900, 5),
    ];
    let s = FinanceService::summarize(&stocks, 9);
    assert_eq!(s.timestamp, 9);
    assert_eq!(s.total_volume, 6 * 1000000 + 10 + 30 + 20 + 30 + 0 + 5);
    assert_eq!(s.total_market_cap, s.total_volume * 100);
    assert_eq!(symbols(&s.gainers), vec!["F", "C", "A", "D", "B"]);
    assert_eq!(symbols(&s.losers), vec!["E", "B", "D", "A", "C"]);
    assert_eq!(symbols(&s.most_active), vec!["B", "D", "C", "A", "F"]);
}

#[test]
fn summary_ranks_by_exact_ratio() {
    // both changes are 0.01 % once truncated; 2/15000 is larger than 1/10000
    let stocks = vec![stock("ZZZ", 501, 0), stock("AAPL", 502, 0)];
    assert_eq!(stocks[0].change_percent, stocks[1].change_percent);
    let s = FinanceService::summarize(&stocks, 0);
    assert_eq!(symbols(&s.gainers), vec!["AAPL", "ZZZ"]);
    assert_eq!(symbols(&s.losers), vec!["ZZZ", "AAPL"]);
}

#[test]
fn market_summary_draws_from_popular_symbols() {
    let set = ["AAPL", "GOOGL", "MSFT", "TSLA", "AMZN", "NVDA", "META", "NFLX"];
    let s = FinanceService::get_market_summary();
    for list in [&s.gainers, &s.losers, &s.most_active] {
        assert!(list.len() <= 5);
        for st in list.iter() {
            assert!(set.contains(&st.symbol.as_str()));
        }
    }
    for w in s.gainers.windows(2) {
        assert!(w[0].change_percent >= w[1].change_percent);
    }
    for w in s.most_active.windows(2) {
        assert!(w[0].volume >= w[1].volume);
    }
}
