use polyester_examples::config::{
    client_env_from, dotenv_to_apply, looks_like_placeholder_credential, parse_dotenv, require_chain_funding_to_trading_enabled,
    require_owner_private_key, require_trading_enabled, require_transfers_enabled,
    require_withdrawals_enabled, settings_from_env, SettingsError,
};

fn env(pairs: &[(&str, &str)]) -> Vec<(String, String)> {
    pairs.iter().map(|(k, v)| (k.to_string(), v.to_string())).collect()
}

#[test]
fn placeholder_credentials_are_detected() {
    assert!(looks_like_placeholder_credential("your_api_key"));
    assert!(looks_like_placeholder_credential("  KEY_HERE "));
    assert!(looks_like_placeholder_credential("Replace_Me"));
    assert!(looks_like_placeholder_credential("CHANGEME"));
    assert!(!looks_like_placeholder_credential("ak_live_123"));
    assert!(!looks_like_placeholder_credential("   "));
    assert!(!looks_like_placeholder_credential(""));
}

#[test]
fn placeholders_survive_surrounding_text_and_case() {
    assert!(looks_like_placeholder_credential("key=your_api_key;"));
    assert!(looks_like_placeholder_credential("\u{3000}YOUR_API_KEY\u{2003}"));
    assert!(looks_like_placeholder_credential("xxchangemexx"));
}

#[test]
fn settings_defaults_match_the_readme() {
    let s = settings_from_env(&Vec::new());
    assert_eq!(s.symbol, "BTC-USDT");
    assert_eq!(s.timeframe, "1m");
    assert_eq!(s.candle_limit, 100);
    assert!(!s.enable_trading);
    assert_eq!(s.max_quote.to_text(), "10");
    assert_eq!(s.rsi_period, 14);
    assert_eq!(s.rsi_oversold.to_text(), "30");
    assert_eq!(s.rsi_overbought.to_text(), "70");
    assert_eq!(s.stream_count, 5);
    assert_eq!(s.orderbook_depth, 50);
    assert_eq!(s.transfer_amount.to_text(), "0.01");
    assert_eq!(s.withdraw_amount.to_text(), "0.01");
    assert_eq!(s.chain_amount.to_text(), "1");
    assert_eq!(s.external_chain_id, 6);
    assert_eq!(s.transfer_dest_account_id, "");
    assert_eq!(s.owner_private_key, "");
}

#[test]
fn settings_read_trimmed_values() {
    let s = settings_from_env(&env(&[
        ("POLYESTER_EXAMPLES_SYMBOL", "  ETH-USDT "),
        ("POLYESTER_EXAMPLES_TIMEFRAME", "   "),
        ("POLYESTER_EXAMPLES_ENABLE_TRADING", " Yes "),
        ("POLYESTER_EXAMPLES_ENABLE_TRANSFERS", "0"),
        ("POLYESTER_EXAMPLES_ENABLE_WITHDRAWALS", "ON"),
        ("POLYESTER_EXAMPLES_CANDLE_LIMIT", " 250 "),
        ("POLYESTER_EXAMPLES_RSI_PERIOD", "abc"),
        ("POLYESTER_EXAMPLES_ORDERBOOK_DEPTH", "4294967296"),
        ("POLYESTER_EXAMPLES_MAX_QUOTE", " 25.5"),
        ("POLYESTER_EXAMPLES_RSI_OVERSOLD", "low"),
        ("POLYESTER_EXAMPLES_EXTERNAL_CHAIN_ID", "+8"),
    ]));
    assert_eq!(s.symbol, "ETH-USDT");
    assert_eq!(s.timeframe, "1m");
    assert!(s.enable_trading);
    assert!(!s.enable_transfers);
    assert!(s.enable_withdrawals);
    assert_eq!(s.candle_limit, 250);
    assert_eq!(s.rsi_period, 14);
    assert_eq!(s.orderbook_depth, 50);
    assert_eq!(s.max_quote.to_text(), "25.5");
    assert_eq!(s.rsi_oversold.to_text(), "30");
    assert_eq!(s.external_chain_id, 8);
}

#[test]
fn gates_follow_their_own_flags() {
    let off = settings_from_env(&Vec::new());
    assert_eq!(require_trading_enabled(&off), Err(SettingsError::TradingDisabled));
    assert_eq!(require_transfers_enabled(&off), Err(SettingsError::TransfersDisabled));
    assert_eq!(require_withdrawals_enabled(&off), Err(SettingsError::WithdrawalsDisabled));
    assert_eq!(
        require_chain_funding_to_trading_enabled(&off),
        Err(SettingsError::ChainFundingToTradingDisabled)
    );
    assert_eq!(require_owner_private_key(&off), Err(SettingsError::OwnerPrivateKeyMissing));

    // Trading alone does not open the other gates.
    let trading = settings_from_env(&env(&[("POLYESTER_EXAMPLES_ENABLE_TRADING", "1")]));
    assert_eq!(require_trading_enabled(&trading), Ok(()));
    assert_eq!(require_transfers_enabled(&trading), Err(SettingsError::TransfersDisabled));
    assert_eq!(require_withdrawals_enabled(&trading), Err(SettingsError::WithdrawalsDisabled));

    let placeholder_dest = settings_from_env(&env(&[
        ("POLYESTER_EXAMPLES_ENABLE_TRANSFERS", "true"),
        ("POLYESTER_EXAMPLES_TRANSFER_DEST_ACCOUNT_ID", "your_account_here"),
    ]));
    assert_eq!(
        require_transfers_enabled(&placeholder_dest),
        Err(SettingsError::TransferDestinationMissing)
    );
    let ready = settings_from_env(&env(&[
        ("POLYESTER_EXAMPLES_ENABLE_TRANSFERS", "true"),
        ("POLYESTER_EXAMPLES_TRANSFER_DEST_ACCOUNT_ID", "acct-42"),
        ("POLYESTER_EXAMPLES_ENABLE_CHAIN_FUNDING_TO_TRADING", "yes"),
        ("POLYESTER_OWNER_PRIVATE_KEY", "0xabc"),
    ]));
    assert_eq!(require_transfers_enabled(&ready), Ok(()));
    assert_eq!(require_chain_funding_to_trading_enabled(&ready), Ok(()));
    assert_eq!(require_owner_private_key(&ready), Ok(()));
}

#[test]
fn gate_messages() {
    assert_eq!(
        SettingsError::TradingDisabled.message(),
        "live order writes are disabled. Set POLYESTER_EXAMPLES_ENABLE_TRADING=1 to opt in (devnet API key + trading balance required)."
    );
    assert_eq!(
        SettingsError::TransferDestinationMissing.message(),
        "POLYESTER_EXAMPLES_TRANSFER_DEST_ACCOUNT_ID is required when transfers are enabled"
    );
    assert_eq!(
        SettingsError::MissingCredentials.message(),
        "missing credentials. Set POLYESTER_API_KEY_ID and POLYESTER_API_PRIVATE_KEY (see .env.example)."
    );
}

#[test]
fn dotenv_lines_are_parsed() {
    let text = "# comment\nA=1\n  B = \"two\" \nnoequals\n=orphan\nC='3'\r\nD=x=y\n\nE=\n";
    let entries = parse_dotenv(text);
    let expected = env(&[("A", "1"), ("B", "two"), ("C", "3"), ("D", "x=y"), ("E", "")]);
    assert_eq!(entries, expected);
    assert!(parse_dotenv("").is_empty());
    assert_eq!(parse_dotenv("K=v"), env(&[("K", "v")]));
}

#[test]
fn dotenv_never_overrides_set_variables() {
    let entries = env(&[("A", "1"), ("B", "2"), ("A", "3"), ("C", "4"), ("B", "5")]);
    let present = vec!["C".to_string()];
    assert_eq!(dotenv_to_apply(&entries, &present), env(&[("A", "1"), ("B", "2")]));
    assert_eq!(dotenv_to_apply(&entries, &Vec::new()), env(&[("A", "1"), ("B", "2"), ("C", "4")]));
    assert!(dotenv_to_apply(&Vec::new(), &present).is_empty());
}

#[test]
fn client_env_ignores_placeholder_credentials() {
    let template = env(&[
        ("POLYESTER_API_KEY_ID", "your_api_key_id_here"),
        ("POLYESTER_API_PRIVATE_KEY", "your_private_key_here"),
    ]);
    let c = client_env_from(&template, false).ok().unwrap();
    assert_eq!(c.api_key_id, None);
    assert_eq!(c.api_private_key, None);
    assert_eq!(client_env_from(&template, true).err(), Some(SettingsError::MissingCredentials));
    let half = env(&[("POLYESTER_API_KEY_ID", "ak_1"), ("POLYESTER_API_PRIVATE_KEY", "CHANGEME")]);
    let c = client_env_from(&half, false).ok().unwrap();
    assert_eq!(c.api_key_id, None);
    assert_eq!(c.api_private_key, None);
}

#[test]
fn client_env_takes_credentials_as_a_pair() {
    let only_key = env(&[("POLYESTER_API_KEY_ID", "ak_1"), ("POLYESTER_API_URL", " https://x ")]);
    assert_eq!(client_env_from(&only_key, true).err(), Some(SettingsError::MissingCredentials));
    let c = client_env_from(&only_key, false).ok().unwrap();
    assert_eq!(c.api_url.as_deref(), Some("https://x"));
    assert_eq!(c.api_key_id, None);
    assert_eq!(c.api_private_key, None);

    let both = env(&[
        ("POLYESTER_API_KEY_ID", " ak_1 "),
        ("POLYESTER_API_PRIVATE_KEY", "pk"),
        ("POLYESTER_ACCOUNT_ID", "  "),
    ]);
    let c = client_env_from(&both, true).ok().unwrap();
    assert_eq!(c.api_key_id.as_deref(), Some("ak_1"));
    assert_eq!(c.api_private_key.as_deref(), Some("pk"));
    assert_eq!(c.default_account_id, None);
    assert_eq!(c.ws_url, None);
}
