use wall_street_wolf::backend::{
    bar_window, equity_delta, feed_delay_minutes, filter_active_assets, time_in_force_for,
    AssetInfo, MarketFeed, Stats, TimeInForce, TimePeriod,
};
use wall_street_wolf::symbol::Symbol;
use wall_street_wolf::watchlist::{
    article_file_stem, chunked, is_article_link, prices_in_range, should_pause_for_rate_limit,
    take_prefix, to_watchlist,
};

#[test]
fn time_periods_in_seconds() {
    assert_eq!(TimePeriod::minutes(5).to_seconds(), 300);
    assert_eq!(TimePeriod::hours(2).to_seconds(), 7_200);
    assert_eq!(TimePeriod::days(14).to_seconds(), 1_209_600);
}

#[test]
fn bar_window_ends_behind_the_feed_delay() {
    let (from, to) = bar_window(1_000_000, MarketFeed::Iex, &TimePeriod::days(14));
    assert_eq!(to, 1_000_000 - 60);
    assert_eq!(from, to - 14 * 86_400);

    let (from_sip, to_sip) = bar_window(1_000_000, MarketFeed::Sip, &TimePeriod::minutes(30));
    assert_eq!(to_sip, 1_000_000 - 300);
    assert_eq!(from_sip, to_sip - 1_800);
}

#[test]
fn feed_delays() {
    assert_eq!(feed_delay_minutes(MarketFeed::Iex), 1);
    assert_eq!(feed_delay_minutes(MarketFeed::Sip), 5);
}

#[test]
fn asset_filter_keeps_tradable_non_otc() {
    let assets = vec![
        AssetInfo { symbol: "AAPL".to_string(), tradable: true, otc_exchange: false },
        AssetInfo { symbol: "PINK".to_string(), tradable: true, otc_exchange: true },
        AssetInfo { symbol: "HALT".to_string(), tradable: false, otc_exchange: false },
        AssetInfo { symbol: "BTC/USD".to_string(), tradable: true, otc_exchange: false },
    ];
    let symbols = filter_active_assets(&assets);
    assert_eq!(symbols.len(), 2);
    assert_eq!(symbols[0].ticker(), "AAPL");
    assert_eq!(symbols[1].ticker(), "BTCUSD");
    assert!(symbols[1].is_crypto());
}

#[test]
fn equity_delta_is_exact_and_signed() {
    assert_eq!(equity_delta(&Stats { current_equity: 1_100, last_equity: 1_000 }), 100);
    assert_eq!(equity_delta(&Stats { current_equity: 900, last_equity: 1_000 }), -100);
    assert_eq!(
        equity_delta(&Stats { current_equity: u64::MAX, last_equity: 0 }),
        u64::MAX as i128
    );
}

#[test]
fn time_in_force_by_symbol_kind() {
    assert_eq!(time_in_force_for(&Symbol::from("AAPL")), TimeInForce::Day);
    assert_eq!(time_in_force_for(&Symbol::from("BTCUSD")), TimeInForce::UntilCanceled);
}

#[test]
fn watchlist_merges_sources_and_drops_duplicates() {
    let primary = vec!["AAPL".to_string(), "MSFT".to_string()];
    let secondary = vec!["MSFT".to_string(), "BTC-USD".to_string(), "AAPL".to_string()];
    let watch = to_watchlist(primary, secondary);
    assert_eq!(watch.len(), 3);
    assert_eq!(watch[0].ticker(), "AAPL");
    assert_eq!(watch[1].ticker(), "MSFT");
    assert_eq!(watch[2].ticker(), "BTCUSD");
    assert!(watch[2].is_crypto());
}

#[test]
fn take_prefix_caps_the_list() {
    let v = vec![Symbol::from("A"), Symbol::from("B"), Symbol::from("C")];
    let capped = take_prefix(v, 2);
    assert_eq!(capped.len(), 2);
    assert_eq!(capped[0].ticker(), "A");
    assert_eq!(capped[1].ticker(), "B");

    let w = vec![Symbol::from("A")];
    assert_eq!(take_prefix(w, 50).len(), 1);
}

#[test]
fn price_range_filter_is_half_open() {
    let prices = vec![
        (Symbol::from("A"), 3_u64),
        (Symbol::from("B"), 5_u64),
        (Symbol::from("C"), 6_u64),
        (Symbol::from("D"), 2_u64),
    ];
    let kept = prices_in_range(&prices, 3, 6);
    assert_eq!(kept.len(), 2);
    assert_eq!(kept[0].0.ticker(), "A");
    assert_eq!(kept[0].1, 3);
    assert_eq!(kept[1].0.ticker(), "B");
}

#[test]
fn chunks_cover_the_list_in_order() {
    let v = vec![
        Symbol::from("A"),
        Symbol::from("B"),
        Symbol::from("C"),
        Symbol::from("D"),
        Symbol::from("E"),
    ];
    let chunks = chunked(&v, 2);
    assert_eq!(chunks.len(), 3);
    assert_eq!(chunks[0].len(), 2);
    assert_eq!(chunks[1].len(), 2);
    assert_eq!(chunks[2].len(), 1);
    assert_eq!(chunks[0][0].ticker(), "A");
    assert_eq!(chunks[2][0].ticker(), "E");

    let small = vec![Symbol::from("A")];
    let one = chunked(&small, 1000);
    assert_eq!(one.len(), 1);
    assert_eq!(one[0].len(), 1);
}

#[test]
fn rate_limit_pause_every_150th_request() {
    assert!(should_pause_for_rate_limit(149, 30));
    assert!(!should_pause_for_rate_limit(149, 60));
    assert!(!should_pause_for_rate_limit(148, 30));
    assert!(should_pause_for_rate_limit(299, 0));
}

#[test]
fn article_stem_takes_last_segment_before_query() {
    assert_eq!(
        article_file_stem("https://example.com/story/some-title?mod=home"),
        "some-title"
    );
    assert_eq!(article_file_stem("https://example.com/articles/plain"), "plain");
    assert_eq!(article_file_stem("no-slashes?q=1"), "no-slashes");
    assert_eq!(article_file_stem(""), "");
    assert_eq!(article_file_stem("trailing/"), "");
}

#[test]
fn article_links_carry_articles_or_stories() {
    assert!(is_article_link("https://example.com/articles/some-title"));
    assert!(is_article_link("https://example.com/story/other"));
    assert!(!is_article_link(""));
    assert!(!is_article_link("https://example.com/about"));
}
