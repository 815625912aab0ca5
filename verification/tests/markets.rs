use polyester_examples::decimal::Dec;
use polyester_examples::markets::{
    available_trading_balance, buy_qty_for_quote_cap, format_decimal, marketable_limit_price,
    no_post_only_price, pair_for_symbol, pick_symbol, post_only_buy_price_from_book,
    post_only_price_outcome, post_only_tick_size, price_to_ticks, qty_to_scaled, quantity_scale_for_pair,
    quote_asset_symbol, sell_qty_for_quote_cap, quote_asset_lookup_names, base_asset_lookup_names, tick_size, AssetBalance, MarketError,
    OrderbookData, OrderbookLevel, PairConfig,
};

fn pair(symbol: &str) -> PairConfig {
    PairConfig {
        symbol: symbol.to_string(),
        base_asset: String::new(),
        quote_asset: String::new(),
        tick_size: String::new(),
        step_size: String::new(),
        min_notional_quote: String::new(),
        min_qty_base: String::new(),
        base_quantity_scale: 0,
    }
}

fn whole(n: i64) -> Dec {
    Dec::from_i64(n)
}

fn dec(s: &str) -> Dec {
    Dec::parse(s).unwrap()
}

#[test]
fn pick_symbol_prefers_listed_choices() {
    let pairs = vec![pair("XRP-USDT"), pair("  "), pair("ETH-USDT")];
    assert_eq!(pick_symbol(&pairs, " XRP-USDT "), "XRP-USDT");
    assert_eq!(pick_symbol(&pairs, "DOGE-USDT"), "ETH-USDT");
    assert_eq!(pick_symbol(&pairs, ""), "ETH-USDT");
    assert_eq!(pick_symbol(&[pair("XRP-USDT")], "BTC-USDT"), "XRP-USDT");
    assert_eq!(pick_symbol(&[], "ETH-USDT"), "BTC-USDT");
    assert_eq!(pick_symbol(&[pair(" ")], ""), "BTC-USDT");
}

#[test]
fn pair_lookup_and_scale() {
    let mut eth = pair("ETH-USDT");
    eth.base_quantity_scale = 6;
    let pairs = vec![pair("BTC-USDT"), eth];
    let found = pair_for_symbol(&pairs, "ETH-USDT").unwrap();
    assert_eq!(found.symbol, "ETH-USDT");
    assert_eq!(quantity_scale_for_pair(Some(&found)), 6);
    assert!(pair_for_symbol(&pairs, "eth-usdt").is_none());
    assert_eq!(quantity_scale_for_pair(Some(&pairs[0])), 8);
    assert_eq!(quantity_scale_for_pair(None), 8);
}

#[test]
fn quote_asset_from_pair_or_symbol() {
    let mut p = pair("ETH-BTC");
    assert_eq!(quote_asset_symbol(Some(&p), "ETH-BTC"), "BTC");
    p.quote_asset = "USDC".to_string();
    assert_eq!(quote_asset_symbol(Some(&p), "ETH-BTC"), "USDC");
    assert_eq!(quote_asset_symbol(None, "ETH"), "USDT");
    assert_eq!(quote_asset_symbol(None, "A-B-C"), "B");
}

#[test]
fn format_decimal_trims() {
    assert_eq!(format_decimal(Dec::new(1500, 3)), "1.5");
    assert_eq!(format_decimal(Dec::new(0, 4)), "0");
    assert_eq!(format_decimal(Dec::new(-2000, 3)), "-2");
    assert_eq!(format_decimal(whole(120)), "120");
}

#[test]
fn tick_size_defaults() {
    assert_eq!(tick_size(None).to_text(), "0.01");
    let mut p = pair("BTC-USDT");
    p.tick_size = " 0.5 ".to_string();
    assert_eq!(tick_size(Some(&p)).to_text(), "0.5");
    p.tick_size = "bad".to_string();
    assert_eq!(tick_size(Some(&p)).to_text(), "0.01");
}

#[test]
fn marketable_limit_prices() {
    assert_eq!(marketable_limit_price("buy", whole(100), None).unwrap(), "100.1");
    assert_eq!(marketable_limit_price("sell", whole(100), None).unwrap(), "99.9");
    assert_eq!(marketable_limit_price("buy", dec("123.4567"), None).unwrap(), "123.59");
    assert_eq!(marketable_limit_price("sell", dec("123.4567"), None).unwrap(), "123.33");
    let err = marketable_limit_price("hold", whole(100), None).unwrap_err();
    assert!(matches!(err, MarketError::InvalidSide));
    assert_eq!(err.message(), "side must be 'buy' or 'sell'");
    let mut p = pair("BTC-USDT");
    p.tick_size = "5".to_string();
    assert_eq!(marketable_limit_price("buy", whole(100), Some(&p)).unwrap(), "105");
}

#[test]
fn format_decimal_depends_only_on_the_value() {
    assert_eq!(format_decimal(dec("1.500")), format_decimal(dec("1.5")));
    assert_eq!(format_decimal(dec("1.500")), "1.5");
    assert_eq!(format_decimal(dec("100")), format_decimal(dec("100.00")));
    let negative_zero = Dec { negative: true, mantissa: 0, scale: 2 };
    assert_eq!(format_decimal(negative_zero), format_decimal(whole(0)));
    assert_eq!(format_decimal(negative_zero), "0");
}

#[test]
fn sell_sizes() {
    assert_eq!(sell_qty_for_quote_cap(whole(1), whole(10), whole(100), None).unwrap(), "0.1");
    let no_balance = sell_qty_for_quote_cap(dec("0.0001"), whole(10), whole(100), None).unwrap_err();
    assert!(matches!(no_balance, MarketError::NoBaseBalance));
    let bad_price = sell_qty_for_quote_cap(whole(1), whole(10), whole(0), None).unwrap_err();
    assert_eq!(bad_price.message(), "price must be positive");
    let small = sell_qty_for_quote_cap(dec("0.05"), whole(10), whole(100), None).unwrap_err();
    assert_eq!(small.message(), "sell size is below min notional 10; available_base=0.05");
    let mut p = pair("BTC-USDT");
    p.step_size = "0.001".to_string();
    p.min_qty_base = "1".to_string();
    p.min_notional_quote = "1".to_string();
    let below_min_qty = sell_qty_for_quote_cap(dec("0.5"), whole(100), whole(10), Some(&p)).unwrap_err();
    assert_eq!(below_min_qty.message(), "sized qty 0.500 is below min qty 1");
    assert_eq!(sell_qty_for_quote_cap(whole(2), whole(100), whole(10), Some(&p)).unwrap(), "2");
}

#[test]
fn buy_sizes() {
    assert_eq!(buy_qty_for_quote_cap(whole(50), whole(10), whole(100), None).unwrap(), "0.1");
    let poor = buy_qty_for_quote_cap(whole(5), whole(10), whole(100), None).unwrap_err();
    assert_eq!(poor.message(), "available quote 5 (cap 10) is below min notional 10");
    let mut p = pair("BTC-USDT");
    p.min_qty_base = "1".to_string();
    let tiny = buy_qty_for_quote_cap(whole(50), whole(10), whole(100), Some(&p)).unwrap_err();
    assert!(matches!(tiny, MarketError::BelowMinQty { .. }));
    let mut q = pair("BTC-USDT");
    q.step_size = "0.03".to_string();
    assert_eq!(buy_qty_for_quote_cap(whole(50), whole(10), whole(100), Some(&q)).unwrap(), "0.09");
}

#[test]
fn ledger_balances() {
    let balances = vec![
        AssetBalance { asset_id: 2, available: "abc".to_string() },
        AssetBalance { asset_id: 1, available: "1500000000000000000".to_string() },
        AssetBalance { asset_id: 3, available: "25".to_string() },
        AssetBalance { asset_id: 1, available: "9".to_string() },
    ];
    assert_eq!(format_decimal(available_trading_balance(&balances, 1)), "1.5");
    assert_eq!(format_decimal(available_trading_balance(&balances, 2)), "0");
    assert_eq!(available_trading_balance(&balances, 3).to_text(), "0.000000000000000025");
    assert_eq!(available_trading_balance(&balances, 9).to_text(), "0");
}

fn book(bids: &[Option<i64>], asks: &[Option<i64>]) -> OrderbookData {
    OrderbookData {
        bids: bids.iter().map(|p| OrderbookLevel { price_ticks: *p }).collect(),
        asks: asks.iter().map(|p| OrderbookLevel { price_ticks: *p }).collect(),
    }
}

#[test]
fn post_only_prices_stay_below_the_ask() {
    let b = book(&[Some(100_000_000)], &[Some(100_010_000)]);
    assert_eq!(post_only_buy_price_from_book(&b, "0.01").as_deref(), Some("99.99"));
    let tight = book(&[Some(100_000_000)], &[Some(99_995_000)]);
    assert_eq!(post_only_buy_price_from_book(&tight, "0.01").as_deref(), Some("99.985"));
    let low = book(&[Some(5_000)], &[]);
    assert_eq!(post_only_buy_price_from_book(&low, "0.01").as_deref(), Some("0.01"));
    assert_eq!(post_only_buy_price_from_book(&book(&[], &[Some(1)]), "0.01"), None);
    assert_eq!(post_only_buy_price_from_book(&book(&[None], &[]), "0.01"), None);
    assert_eq!(post_only_buy_price_from_book(&b, "zero"), None);
    assert_eq!(post_only_buy_price_from_book(&b, "0"), None);
    let crossed = book(&[Some(100_000_000)], &[Some(5_000)]);
    assert_eq!(post_only_buy_price_from_book(&crossed, "0.01"), None);
}

#[test]
fn post_only_outcome_after_the_book_fetch() {
    let b = book(&[Some(100_000_000)], &[Some(100_010_000)]);
    assert_eq!(post_only_price_outcome(Some(&b), None, "BTC-USDT").unwrap(), "99.99");
    let mut p = pair("BTC-USDT");
    p.tick_size = " 0.5 ".to_string();
    assert_eq!(post_only_price_outcome(Some(&b), Some(&p), "BTC-USDT").unwrap(), "99.5");
    let missing = post_only_price_outcome(None, None, "BTC-USDT").unwrap_err();
    assert_eq!(missing.message(), "could not resolve a post-only buy limit price for BTC-USDT");
    let empty = book(&[], &[]);
    let none = post_only_price_outcome(Some(&empty), None, "ETH-USDT").unwrap_err();
    assert_eq!(none.message(), "could not resolve a post-only buy limit price for ETH-USDT");
}

#[test]
fn post_only_tick_size_and_error() {
    assert_eq!(post_only_tick_size(None), "0.01");
    let mut p = pair("BTC-USDT");
    assert_eq!(post_only_tick_size(Some(&p)), "0.01");
    p.tick_size = " 0.5 ".to_string();
    assert_eq!(post_only_tick_size(Some(&p)), "0.5");
    assert_eq!(
        no_post_only_price("BTC-USDT").message(),
        "could not resolve a post-only buy limit price for BTC-USDT"
    );
}

#[test]
fn scaled_quantities() {
    assert_eq!(qty_to_scaled("0.01", 8).unwrap(), 1_000_000);
    assert_eq!(qty_to_scaled(" 2 ", 0).unwrap(), 2);
    let unclean = qty_to_scaled("0.123456789", 8).unwrap_err();
    assert_eq!(unclean.message(), "qty \"0.123456789\" does not scale cleanly to 8 decimals");
    assert!(matches!(qty_to_scaled("abc", 8).unwrap_err(), MarketError::InvalidDecimal { .. }));
    assert!(matches!(
        qty_to_scaled("10000000000", 18).unwrap_err(),
        MarketError::ScaledOutOfRange
    ));
    assert!(matches!(
        qty_to_scaled("100000000000", 18).unwrap_err(),
        MarketError::ArithmeticOverflow
    ));
}

#[test]
fn price_ticks() {
    assert_eq!(price_to_ticks("100.5").unwrap(), 100_500_000);
    assert_eq!(price_to_ticks("0").unwrap(), 0);
    assert!(matches!(price_to_ticks("1.1234567").unwrap_err(), MarketError::InvalidPrice { .. }));
    assert!(matches!(price_to_ticks("-1").unwrap_err(), MarketError::InvalidPrice { .. }));
}

#[test]
fn asset_lookup_names() {
    let mut p = pair("ETH-BTC");
    assert_eq!(quote_asset_lookup_names(Some(&p), "ETH-BTC"), (None, "BTC".to_string()));
    assert_eq!(base_asset_lookup_names(None, "ETH-BTC"), (None, "ETH".to_string()));
    assert_eq!(base_asset_lookup_names(None, "SOLO"), (None, "SOLO".to_string()));
    assert_eq!(quote_asset_lookup_names(None, "SOLO"), (None, "USDT".to_string()));
    p.quote_asset = "USDC".to_string();
    p.base_asset = "WETH".to_string();
    assert_eq!(
        quote_asset_lookup_names(Some(&p), "ETH-BTC"),
        (Some("USDC".to_string()), "BTC".to_string())
    );
    assert_eq!(
        base_asset_lookup_names(Some(&p), "ETH-BTC"),
        (Some("WETH".to_string()), "ETH".to_string())
    );
}
