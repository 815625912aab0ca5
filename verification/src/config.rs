//! Example settings: environment variable names, how each setting is read
//! from an environment snapshot, the opt-in gates, and the `.env` line format.
use crate::decimal::{dec_int, dec_new, decimal_from_str, Dec};
use crate::text::{
    ascii_lower_seq, ascii_upper_seq, before_char, chars_eq, chars_of, contains_exec, contains_seq, lower_chars,
    parse_u128_chars, parse_unsigned, string_from_chars, trim_chars, trim_seq, trimmed_chars,
};
use vstd::prelude::*;

verus! {

pub const API_KEY_ID_ENV: &'static str = "POLYESTER_API_KEY_ID";
pub const API_PRIVATE_KEY_ENV: &'static str = "POLYESTER_API_PRIVATE_KEY";
pub const ACCOUNT_ID_ENV: &'static str = "POLYESTER_ACCOUNT_ID";
pub const SUB_ACCOUNT_ID_ENV: &'static str = "POLYESTER_SUB_ACCOUNT_ID";
pub const API_URL_ENV: &'static str = "POLYESTER_API_URL";
pub const WS_URL_ENV: &'static str = "POLYESTER_WS_URL";
pub const OWNER_PRIVATE_KEY_ENV: &'static str = "POLYESTER_OWNER_PRIVATE_KEY";

pub const EXAMPLES_SYMBOL_ENV: &'static str = "POLYESTER_EXAMPLES_SYMBOL";
pub const EXAMPLES_TIMEFRAME_ENV: &'static str = "POLYESTER_EXAMPLES_TIMEFRAME";
pub const EXAMPLES_CANDLE_LIMIT_ENV: &'static str = "POLYESTER_EXAMPLES_CANDLE_LIMIT";
pub const EXAMPLES_ENABLE_TRADING_ENV: &'static str = "POLYESTER_EXAMPLES_ENABLE_TRADING";
pub const EXAMPLES_MAX_QUOTE_ENV: &'static str = "POLYESTER_EXAMPLES_MAX_QUOTE";
pub const EXAMPLES_RSI_PERIOD_ENV: &'static str = "POLYESTER_EXAMPLES_RSI_PERIOD";
pub const EXAMPLES_RSI_OVERSOLD_ENV: &'static str = "POLYESTER_EXAMPLES_RSI_OVERSOLD";
pub const EXAMPLES_RSI_OVERBOUGHT_ENV: &'static str = "POLYESTER_EXAMPLES_RSI_OVERBOUGHT";
pub const EXAMPLES_ORDER_TIMEOUT_ENV: &'static str = "POLYESTER_EXAMPLES_ORDER_TIMEOUT_SEC";
pub const EXAMPLES_POLL_ENV: &'static str = "POLYESTER_EXAMPLES_POLL_SEC";
pub const EXAMPLES_STREAM_COUNT_ENV: &'static str = "POLYESTER_EXAMPLES_STREAM_COUNT";
pub const EXAMPLES_ORDERBOOK_DEPTH_ENV: &'static str = "POLYESTER_EXAMPLES_ORDERBOOK_DEPTH";
pub const EXAMPLES_ENABLE_TRANSFERS_ENV: &'static str = "POLYESTER_EXAMPLES_ENABLE_TRANSFERS";
pub const EXAMPLES_ENABLE_WITHDRAWALS_ENV: &'static str = "POLYESTER_EXAMPLES_ENABLE_WITHDRAWALS";
pub const EXAMPLES_ENABLE_CHAIN_FUNDING_TO_TRADING_ENV: &'static str =
    "POLYESTER_EXAMPLES_ENABLE_CHAIN_FUNDING_TO_TRADING";
pub const EXAMPLES_ENABLE_CHAIN_EXTERNAL_SUBMIT_ENV: &'static str =
    "POLYESTER_EXAMPLES_ENABLE_CHAIN_EXTERNAL_SUBMIT";
pub const EXAMPLES_TRANSFER_DEST_ACCOUNT_ID_ENV: &'static str =
    "POLYESTER_EXAMPLES_TRANSFER_DEST_ACCOUNT_ID";
pub const EXAMPLES_TRANSFER_AMOUNT_ENV: &'static str = "POLYESTER_EXAMPLES_TRANSFER_AMOUNT";
pub const EXAMPLES_WITHDRAW_AMOUNT_ENV: &'static str = "POLYESTER_EXAMPLES_WITHDRAW_AMOUNT";
pub const EXAMPLES_CHAIN_AMOUNT_ENV: &'static str = "POLYESTER_EXAMPLES_CHAIN_AMOUNT";
pub const EXAMPLES_EXTERNAL_DESTINATION_ENV: &'static str =
    "POLYESTER_EXAMPLES_EXTERNAL_DESTINATION";
pub const EXAMPLES_EXTERNAL_CHAIN_ID_ENV: &'static str = "POLYESTER_EXAMPLES_EXTERNAL_CHAIN_ID";

// ---------------------------------------------------------------------------
// Reading one setting from an environment snapshot
// ---------------------------------------------------------------------------

/// The characters of an optional string.
pub open spec fn opt_chars(o: Option<String>) -> Option<Seq<char>> {
    match o {
        Some(s) => Some(s@),
        None => None,
    }
}

/// The value of the first variable named `key` in an environment snapshot.
pub open spec fn env_lookup(env: Seq<(String, String)>, key: Seq<char>) -> Option<Seq<char>>
    decreases env.len(),
{
    if env.len() == 0 {
        None
    } else if env[0].0@ == key {
        Some(env[0].1@)
    } else {
        env_lookup(env.drop_first(), key)
    }
}

/// A string setting: the trimmed value when it is not empty, else the default.
pub open spec fn env_string_spec(raw: Option<Seq<char>>, default: Seq<char>) -> Seq<char> {
    match raw {
        Some(v) => if trim_seq(v).len() > 0 {
            trim_seq(v)
        } else {
            default
        },
        None => default,
    }
}

/// A flag: set when the trimmed, lower-cased value is `1`, `true`, `yes` or `on`.
pub open spec fn env_bool_spec(raw: Option<Seq<char>>) -> bool {
    match raw {
        Some(v) => {
            let l = ascii_lower_seq(trim_seq(v));
            l == "1"@ || l == "true"@ || l == "yes"@ || l == "on"@
        },
        None => false,
    }
}

/// An unsigned integer setting: the trimmed value parsed as an integer at
/// most `max`, else the default.
pub open spec fn env_unsigned_spec(raw: Option<Seq<char>>, default: nat, max: nat) -> nat {
    match raw {
        Some(v) => match parse_unsigned(trim_seq(v), max) {
            Some(n) => n,
            None => default,
        },
        None => default,
    }
}

/// A decimal setting: the trimmed value parsed as a decimal, else the default.
pub open spec fn env_decimal_spec(raw: Option<Seq<char>>, default: Dec) -> Dec {
    match raw {
        Some(v) => match decimal_from_str(trim_seq(v)) {
            Some(d) => d,
            None => default,
        },
        None => default,
    }
}

/// The value of the first variable named `key` in `env`.
pub fn lookup_env(env: &Vec<(String, String)>, key: &str) -> (r: Option<String>)
    ensures
        opt_chars(r) == env_lookup(env@, key@),
{
    let k = chars_of(key);
    let mut i: usize = 0;
    assert(env@.subrange(0, env.len() as int) =~= env@);
    while i < env.len()
        invariant
            i <= env.len(),
            k@ == key@,
            env_lookup(env@, key@) == env_lookup(env@.subrange(i as int, env.len() as int), key@),
        decreases env.len() - i,
    {
        let ghost rest = env@.subrange(i as int, env.len() as int);
        assert(rest.drop_first() =~= env@.subrange(i + 1, env.len() as int));
        assert(rest[0] == env@[i as int]);
        let name = chars_of(env[i].0.as_str());
        if chars_eq(&name, &k) {
            return Some(env[i].1.clone());
        }
        i = i + 1;
    }
    None
}

/// A string setting from its raw value (`env_string`).
pub fn env_string_value(raw: &Option<String>, default: &str) -> (r: String)
    ensures
        r@ == env_string_spec(opt_chars(*raw), default@),
{
    match raw {
        Some(v) => {
            let t = trimmed_chars(v.as_str());
            if t.len() > 0 {
                string_from_chars(&t)
            } else {
                String::from_str(default)
            }
        },
        None => String::from_str(default),
    }
}

/// A flag from its raw value (`env_bool`).
pub fn env_bool_value(raw: &Option<String>) -> (r: bool)
    ensures
        r == env_bool_spec(opt_chars(*raw)),
{
    match raw {
        Some(v) => {
            let l = lower_chars(&trimmed_chars(v.as_str()));
            chars_eq(&l, &chars_of("1")) || chars_eq(&l, &chars_of("true")) || chars_eq(
                &l,
                &chars_of("yes"),
            ) || chars_eq(&l, &chars_of("on"))
        },
        None => false,
    }
}

/// An unsigned setting from its raw value, at most `max` (`env_usize`, `env_u32`).
pub fn env_unsigned_value(raw: &Option<String>, default: u64, max: u64) -> (r: u64)
    requires
        default <= max,
    ensures
        r as nat == env_unsigned_spec(opt_chars(*raw), default as nat, max as nat),
        r <= max,
{
    match raw {
        Some(v) => {
            let t = trimmed_chars(v.as_str());
            let ghost ts = trim_seq(v@);
            match parse_u128_chars(&t) {
                Some(n) => {
                    if n <= max as u128 {
                        n as u64
                    } else {
                        assert(parse_unsigned(ts, max as nat) is None);
                        default
                    }
                },
                None => {
                    assert(parse_unsigned(ts, max as nat) is None);
                    default
                },
            }
        },
        None => default,
    }
}

/// A `usize` setting from its raw value (`env_usize`).
pub fn env_usize_value(raw: &Option<String>, default: usize) -> (r: usize)
    ensures
        r as nat == env_unsigned_spec(opt_chars(*raw), default as nat, usize::MAX as nat),
{
    let v = env_unsigned_value(raw, default as u64, usize::MAX as u64);
    v as usize
}

/// A `u32` setting from its raw value (`env_u32`).
pub fn env_u32_value(raw: &Option<String>, default: u32) -> (r: u32)
    ensures
        r as nat == env_unsigned_spec(opt_chars(*raw), default as nat, u32::MAX as nat),
{
    let v = env_unsigned_value(raw, default as u64, u32::MAX as u64);
    v as u32
}

/// A decimal setting from its raw value (`env_decimal`).
pub fn env_decimal_value(raw: &Option<String>, default: Dec) -> (r: Dec)
    requires
        default.wf(),
    ensures
        r == env_decimal_spec(opt_chars(*raw), default),
        r.wf(),
{
    match raw {
        Some(v) => {
            let t = string_from_chars(&trimmed_chars(v.as_str()));
            match Dec::parse(t.as_str()) {
                Some(d) => d,
                None => default,
            }
        },
        None => default,
    }
}

// ---------------------------------------------------------------------------
// Settings
// ---------------------------------------------------------------------------

/// The example settings that are read as text, integers, flags and decimals.
/// (The order timeout and poll interval are seconds as `f64` and are read
/// next to these by the caller.)
pub struct ExampleSettings {
    pub symbol: String,
    pub timeframe: String,
    pub candle_limit: usize,
    pub enable_trading: bool,
    pub max_quote: Dec,
    pub rsi_period: usize,
    pub rsi_oversold: Dec,
    pub rsi_overbought: Dec,
    pub stream_count: usize,
    pub orderbook_depth: u32,
    pub enable_transfers: bool,
    pub enable_withdrawals: bool,
    pub enable_chain_funding_to_trading: bool,
    pub enable_chain_external_submit: bool,
    pub transfer_dest_account_id: String,
    pub transfer_amount: Dec,
    pub withdraw_amount: Dec,
    pub chain_amount: Dec,
    pub external_destination: String,
    pub external_chain_id: u32,
    pub owner_private_key: String,
}

pub open spec fn env_str(env: Seq<(String, String)>, key: &str, default: Seq<char>) -> Seq<char> {
    env_string_spec(env_lookup(env, key@), default)
}

pub open spec fn env_flag(env: Seq<(String, String)>, key: &str) -> bool {
    env_bool_spec(env_lookup(env, key@))
}

pub open spec fn env_nat(env: Seq<(String, String)>, key: &str, default: nat, max: nat) -> nat {
    env_unsigned_spec(env_lookup(env, key@), default, max)
}

pub open spec fn env_dec(env: Seq<(String, String)>, key: &str, default: Dec) -> Dec {
    env_decimal_spec(env_lookup(env, key@), default)
}

/// What each setting is, given the environment snapshot `env`.
pub open spec fn settings_spec(s: ExampleSettings, env: Seq<(String, String)>) -> bool {
    &&& s.symbol@ == env_str(env, EXAMPLES_SYMBOL_ENV, "BTC-USDT"@)
    &&& s.timeframe@ == env_str(env, EXAMPLES_TIMEFRAME_ENV, "1m"@)
    &&& s.candle_limit as nat == env_nat(env, EXAMPLES_CANDLE_LIMIT_ENV, 100, usize::MAX as nat)
    &&& s.enable_trading == env_flag(env, EXAMPLES_ENABLE_TRADING_ENV)
    &&& s.max_quote == env_dec(env, EXAMPLES_MAX_QUOTE_ENV, dec_int(10))
    &&& s.rsi_period as nat == env_nat(env, EXAMPLES_RSI_PERIOD_ENV, 14, usize::MAX as nat)
    &&& s.rsi_oversold == env_dec(env, EXAMPLES_RSI_OVERSOLD_ENV, dec_int(30))
    &&& s.rsi_overbought == env_dec(env, EXAMPLES_RSI_OVERBOUGHT_ENV, dec_int(70))
    &&& s.stream_count as nat == env_nat(env, EXAMPLES_STREAM_COUNT_ENV, 5, usize::MAX as nat)
    &&& s.orderbook_depth as nat == env_nat(env, EXAMPLES_ORDERBOOK_DEPTH_ENV, 50, u32::MAX as nat)
    &&& s.enable_transfers == env_flag(env, EXAMPLES_ENABLE_TRANSFERS_ENV)
    &&& s.enable_withdrawals == env_flag(env, EXAMPLES_ENABLE_WITHDRAWALS_ENV)
    &&& s.enable_chain_funding_to_trading == env_flag(env, EXAMPLES_ENABLE_CHAIN_FUNDING_TO_TRADING_ENV)
    &&& s.enable_chain_external_submit == env_flag(env, EXAMPLES_ENABLE_CHAIN_EXTERNAL_SUBMIT_ENV)
    &&& s.transfer_dest_account_id@ == env_str(env, EXAMPLES_TRANSFER_DEST_ACCOUNT_ID_ENV, ""@)
    &&& s.transfer_amount == env_dec(env, EXAMPLES_TRANSFER_AMOUNT_ENV, dec_new(1, 2))
    &&& s.withdraw_amount == env_dec(env, EXAMPLES_WITHDRAW_AMOUNT_ENV, dec_new(1, 2))
    &&& s.chain_amount == env_dec(env, EXAMPLES_CHAIN_AMOUNT_ENV, dec_int(1))
    &&& s.external_destination@ == env_str(env, EXAMPLES_EXTERNAL_DESTINATION_ENV, ""@)
    &&& s.external_chain_id as nat == env_nat(env, EXAMPLES_EXTERNAL_CHAIN_ID_ENV, 6, u32::MAX as nat)
    &&& s.owner_private_key@ == env_str(env, OWNER_PRIVATE_KEY_ENV, ""@)
}

/// The settings read from an environment snapshot (the part of
/// `load_settings` that does not read the process environment).
pub fn settings_from_env(env: &Vec<(String, String)>) -> (r: ExampleSettings)
    ensures
        settings_spec(r, env@),
        r.max_quote.wf(),
        r.rsi_oversold.wf(),
        r.rsi_overbought.wf(),
        r.transfer_amount.wf(),
        r.withdraw_amount.wf(),
        r.chain_amount.wf(),
{
    ExampleSettings {
        symbol: env_string_value(&lookup_env(env, EXAMPLES_SYMBOL_ENV), "BTC-USDT"),
        timeframe: env_string_value(&lookup_env(env, EXAMPLES_TIMEFRAME_ENV), "1m"),
        candle_limit: env_usize_value(&lookup_env(env, EXAMPLES_CANDLE_LIMIT_ENV), 100),
        enable_trading: env_bool_value(&lookup_env(env, EXAMPLES_ENABLE_TRADING_ENV)),
        max_quote: env_decimal_value(&lookup_env(env, EXAMPLES_MAX_QUOTE_ENV), Dec::from_i64(10)),
        rsi_period: env_usize_value(&lookup_env(env, EXAMPLES_RSI_PERIOD_ENV), 14),
        rsi_oversold: env_decimal_value(
            &lookup_env(env, EXAMPLES_RSI_OVERSOLD_ENV),
            Dec::from_i64(30),
        ),
        rsi_overbought: env_decimal_value(
            &lookup_env(env, EXAMPLES_RSI_OVERBOUGHT_ENV),
            Dec::from_i64(70),
        ),
        stream_count: env_usize_value(&lookup_env(env, EXAMPLES_STREAM_COUNT_ENV), 5),
        orderbook_depth: env_u32_value(&lookup_env(env, EXAMPLES_ORDERBOOK_DEPTH_ENV), 50),
        enable_transfers: env_bool_value(&lookup_env(env, EXAMPLES_ENABLE_TRANSFERS_ENV)),
        enable_withdrawals: env_bool_value(&lookup_env(env, EXAMPLES_ENABLE_WITHDRAWALS_ENV)),
        enable_chain_funding_to_trading: env_bool_value(
            &lookup_env(env, EXAMPLES_ENABLE_CHAIN_FUNDING_TO_TRADING_ENV),
        ),
        enable_chain_external_submit: env_bool_value(
            &lookup_env(env, EXAMPLES_ENABLE_CHAIN_EXTERNAL_SUBMIT_ENV),
        ),
        transfer_dest_account_id: env_string_value(
            &lookup_env(env, EXAMPLES_TRANSFER_DEST_ACCOUNT_ID_ENV),
            "",
        ),
        transfer_amount: env_decimal_value(
            &lookup_env(env, EXAMPLES_TRANSFER_AMOUNT_ENV),
            Dec::new(1, 2),
        ),
        withdraw_amount: env_decimal_value(
            &lookup_env(env, EXAMPLES_WITHDRAW_AMOUNT_ENV),
            Dec::new(1, 2),
        ),
        chain_amount: env_decimal_value(&lookup_env(env, EXAMPLES_CHAIN_AMOUNT_ENV), Dec::from_i64(1)),
        external_destination: env_string_value(
            &lookup_env(env, EXAMPLES_EXTERNAL_DESTINATION_ENV),
            "",
        ),
        external_chain_id: env_u32_value(&lookup_env(env, EXAMPLES_EXTERNAL_CHAIN_ID_ENV), 6),
        owner_private_key: env_string_value(&lookup_env(env, OWNER_PRIVATE_KEY_ENV), ""),
    }
}

// ---------------------------------------------------------------------------
// Credentials and opt-in gates
// ---------------------------------------------------------------------------

/// A credential still holds template text: after trimming and lower-casing it
/// is not empty and contains `your_`, `_here`, `replace_me` or `changeme`.
pub open spec fn placeholder_spec(value: Seq<char>) -> bool {
    let lower = ascii_lower_seq(trim_seq(value));
    lower.len() > 0 && (contains_seq(lower, "your_"@) || contains_seq(lower, "_here"@)
        || contains_seq(lower, "replace_me"@) || contains_seq(lower, "changeme"@))
}

/// Whether a credential value still looks like template text.
pub fn looks_like_placeholder_credential(value: &str) -> (r: bool)
    ensures
        r == placeholder_spec(value@),
{
    let lower = lower_chars(&trimmed_chars(value));
    lower.len() > 0 && (contains_exec(&lower, &chars_of("your_")) || contains_exec(
        &lower,
        &chars_of("_here"),
    ) || contains_exec(&lower, &chars_of("replace_me")) || contains_exec(
        &lower,
        &chars_of("changeme"),
    ))
}

/// Why an opt-in gate refused.
#[derive(Clone, Copy, Debug, PartialEq, Eq, Structural)]
pub enum SettingsError {
    TradingDisabled,
    TransfersDisabled,
    TransferDestinationMissing,
    WithdrawalsDisabled,
    ChainFundingToTradingDisabled,
    OwnerPrivateKeyMissing,
    MissingCredentials,
}

/// The message the examples print for each refusal.
pub open spec fn settings_error_text(e: SettingsError) -> Seq<char> {
    match e {
        SettingsError::TradingDisabled => "live order writes are disabled. Set POLYESTER_EXAMPLES_ENABLE_TRADING=1 to opt in (devnet API key + trading balance required)."@,
        SettingsError::TransfersDisabled => "internal transfers are disabled; set POLYESTER_EXAMPLES_ENABLE_TRANSFERS=1 and POLYESTER_EXAMPLES_TRANSFER_DEST_ACCOUNT_ID after confirming destination and balances"@,
        SettingsError::TransferDestinationMissing => "POLYESTER_EXAMPLES_TRANSFER_DEST_ACCOUNT_ID is required when transfers are enabled"@,
        SettingsError::WithdrawalsDisabled => "withdraw submit is disabled; set POLYESTER_EXAMPLES_ENABLE_WITHDRAWALS=1 after confirming trading balance and intent"@,
        SettingsError::ChainFundingToTradingDisabled => "chain Funding->Trading submit is disabled; set POLYESTER_EXAMPLES_ENABLE_CHAIN_FUNDING_TO_TRADING=1 and POLYESTER_OWNER_PRIVATE_KEY to broadcast"@,
        SettingsError::OwnerPrivateKeyMissing => "POLYESTER_OWNER_PRIVATE_KEY is required for smart-account UserOp submission"@,
        SettingsError::MissingCredentials => "missing credentials. Set POLYESTER_API_KEY_ID and POLYESTER_API_PRIVATE_KEY (see .env.example)."@,
    }
}

impl SettingsError {
    /// The message the examples print for the refusal.
    pub fn message(&self) -> (r: String)
        ensures
            r@ == settings_error_text(*self),
    {
        match self {
            SettingsError::TradingDisabled => String::from_str(
                "live order writes are disabled. Set POLYESTER_EXAMPLES_ENABLE_TRADING=1 to opt in (devnet API key + trading balance required).",
            ),
            SettingsError::TransfersDisabled => String::from_str(
                "internal transfers are disabled; set POLYESTER_EXAMPLES_ENABLE_TRANSFERS=1 and POLYESTER_EXAMPLES_TRANSFER_DEST_ACCOUNT_ID after confirming destination and balances",
            ),
            SettingsError::TransferDestinationMissing => String::from_str(
                "POLYESTER_EXAMPLES_TRANSFER_DEST_ACCOUNT_ID is required when transfers are enabled",
            ),
            SettingsError::WithdrawalsDisabled => String::from_str(
                "withdraw submit is disabled; set POLYESTER_EXAMPLES_ENABLE_WITHDRAWALS=1 after confirming trading balance and intent",
            ),
            SettingsError::ChainFundingToTradingDisabled => String::from_str(
                "chain Funding->Trading submit is disabled; set POLYESTER_EXAMPLES_ENABLE_CHAIN_FUNDING_TO_TRADING=1 and POLYESTER_OWNER_PRIVATE_KEY to broadcast",
            ),
            SettingsError::OwnerPrivateKeyMissing => String::from_str(
                "POLYESTER_OWNER_PRIVATE_KEY is required for smart-account UserOp submission",
            ),
            SettingsError::MissingCredentials => String::from_str(
                "missing credentials. Set POLYESTER_API_KEY_ID and POLYESTER_API_PRIVATE_KEY (see .env.example).",
            ),
        }
    }
}

/// A credential-like setting is usable: not blank and not template text.
pub open spec fn usable_value(value: Seq<char>) -> bool {
    trim_seq(value).len() > 0 && !placeholder_spec(value)
}

/// The decision of the trading gate.
pub open spec fn trading_gate(s: ExampleSettings) -> Result<(), SettingsError> {
    if s.enable_trading {
        Ok(())
    } else {
        Err(SettingsError::TradingDisabled)
    }
}

/// The decision of the transfers gate.
pub open spec fn transfers_gate(s: ExampleSettings) -> Result<(), SettingsError> {
    if !s.enable_transfers {
        Err(SettingsError::TransfersDisabled)
    } else if !usable_value(s.transfer_dest_account_id@) {
        Err(SettingsError::TransferDestinationMissing)
    } else {
        Ok(())
    }
}

/// The decision of the withdrawals gate.
pub open spec fn withdrawals_gate(s: ExampleSettings) -> Result<(), SettingsError> {
    if s.enable_withdrawals {
        Ok(())
    } else {
        Err(SettingsError::WithdrawalsDisabled)
    }
}

/// The decision of the Funding-to-Trading gate.
pub open spec fn chain_funding_gate(s: ExampleSettings) -> Result<(), SettingsError> {
    if s.enable_chain_funding_to_trading {
        Ok(())
    } else {
        Err(SettingsError::ChainFundingToTradingDisabled)
    }
}

/// The decision of the owner-key gate.
pub open spec fn owner_key_gate(s: ExampleSettings) -> Result<(), SettingsError> {
    if usable_value(s.owner_private_key@) {
        Ok(())
    } else {
        Err(SettingsError::OwnerPrivateKeyMissing)
    }
}

/// Order writes go ahead only when trading is enabled.
pub fn require_trading_enabled(settings: &ExampleSettings) -> (r: Result<(), SettingsError>)
    ensures
        r == trading_gate(*settings),
{
    if settings.enable_trading {
        return Ok(());
    }
    Err(SettingsError::TradingDisabled)
}

/// Transfers go ahead only when enabled and a usable destination is set.
pub fn require_transfers_enabled(settings: &ExampleSettings) -> (r: Result<(), SettingsError>)
    ensures
        r == transfers_gate(*settings),
{
    if !settings.enable_transfers {
        return Err(SettingsError::TransfersDisabled);
    }
    if trimmed_chars(settings.transfer_dest_account_id.as_str()).len() == 0
        || looks_like_placeholder_credential(settings.transfer_dest_account_id.as_str()) {
        return Err(SettingsError::TransferDestinationMissing);
    }
    Ok(())
}

/// Withdraw submits go ahead only when withdrawals are enabled.
pub fn require_withdrawals_enabled(settings: &ExampleSettings) -> (r: Result<(), SettingsError>)
    ensures
        r == withdrawals_gate(*settings),
{
    if settings.enable_withdrawals {
        return Ok(());
    }
    Err(SettingsError::WithdrawalsDisabled)
}

/// Funding-to-Trading submits go ahead only when enabled.
pub fn require_chain_funding_to_trading_enabled(settings: &ExampleSettings) -> (r: Result<
    (),
    SettingsError,
>)
    ensures
        r == chain_funding_gate(*settings),
{
    if settings.enable_chain_funding_to_trading {
        return Ok(());
    }
    Err(SettingsError::ChainFundingToTradingDisabled)
}

/// Smart-account submits need a usable owner private key.
pub fn require_owner_private_key(settings: &ExampleSettings) -> (r: Result<(), SettingsError>)
    ensures
        r == owner_key_gate(*settings),
{
    if trimmed_chars(settings.owner_private_key.as_str()).len() == 0
        || looks_like_placeholder_credential(settings.owner_private_key.as_str()) {
        return Err(SettingsError::OwnerPrivateKeyMissing);
    }
    Ok(())
}

// ---------------------------------------------------------------------------
// Client settings
// ---------------------------------------------------------------------------

/// A setting that is present and not blank, trimmed.
pub open spec fn nonblank(raw: Option<Seq<char>>) -> Option<Seq<char>> {
    match raw {
        Some(v) => if trim_seq(v).len() > 0 {
            Some(trim_seq(v))
        } else {
            None
        },
        None => None,
    }
}

/// The client settings read from the environment; `None` keeps the SDK default.
pub struct ClientEnv {
    pub api_url: Option<String>,
    pub ws_url: Option<String>,
    pub default_account_id: Option<String>,
    pub default_sub_account_id: Option<String>,
    pub api_key_id: Option<String>,
    pub api_private_key: Option<String>,
}

/// A credential setting: present, not blank, and not template text from
/// `.env.example` (such text is ignored), trimmed.
pub open spec fn credential(raw: Option<Seq<char>>) -> Option<Seq<char>> {
    match nonblank(raw) {
        Some(t) => if placeholder_spec(t) {
            None
        } else {
            Some(t)
        },
        None => None,
    }
}

/// Both API credentials are set in `env` (and are not template text).
pub open spec fn has_credentials(env: Seq<(String, String)>) -> bool {
    credential(env_lookup(env, API_KEY_ID_ENV@)) is Some && credential(
        env_lookup(env, API_PRIVATE_KEY_ENV@),
    ) is Some
}

/// The credential value of `key` in `env`: trimmed, not blank, and not
/// template text.
pub fn credential_env(env: &Vec<(String, String)>, key: &str) -> (r: Option<String>)
    ensures
        opt_chars(r) == credential(env_lookup(env@, key@)),
{
    match nonblank_env(env, key) {
        Some(v) => if looks_like_placeholder_credential(v.as_str()) {
            None
        } else {
            Some(v)
        },
        None => None,
    }
}

/// The trimmed, non-blank value of `key` in `env`.
pub fn nonblank_env(env: &Vec<(String, String)>, key: &str) -> (r: Option<String>)
    ensures
        opt_chars(r) == nonblank(env_lookup(env@, key@)),
{
    match lookup_env(env, key) {
        Some(v) => {
            let t = trimmed_chars(v.as_str());
            if t.len() > 0 {
                Some(string_from_chars(&t))
            } else {
                None
            }
        },
        None => None,
    }
}

/// The client settings from an environment snapshot (the part of
/// `client_from_env` that does not touch the process or the network).
/// Credentials are taken only as a pair, and template text from
/// `.env.example` counts as missing: it is ignored when authentication is not
/// required, and a missing pair is an error when it is.
pub fn client_env_from(env: &Vec<(String, String)>, require_auth: bool) -> (r: Result<
    ClientEnv,
    SettingsError,
>)
    ensures
        r is Err <==> (require_auth && !has_credentials(env@)),
        r is Err ==> r == Err::<ClientEnv, SettingsError>(SettingsError::MissingCredentials),
        r matches Ok(c) ==> {
            &&& opt_chars(c.api_url) == nonblank(env_lookup(env@, API_URL_ENV@))
            &&& opt_chars(c.ws_url) == nonblank(env_lookup(env@, WS_URL_ENV@))
            &&& opt_chars(c.default_account_id) == nonblank(env_lookup(env@, ACCOUNT_ID_ENV@))
            &&& opt_chars(c.default_sub_account_id) == nonblank(
                env_lookup(env@, SUB_ACCOUNT_ID_ENV@),
            )
            &&& if has_credentials(env@) {
                &&& opt_chars(c.api_key_id) == credential(env_lookup(env@, API_KEY_ID_ENV@))
                &&& opt_chars(c.api_private_key) == credential(
                    env_lookup(env@, API_PRIVATE_KEY_ENV@),
                )
            } else {
                c.api_key_id is None && c.api_private_key is None
            }
        },
{
    let key_id = credential_env(env, API_KEY_ID_ENV);
    let private_key = credential_env(env, API_PRIVATE_KEY_ENV);
    let (api_key_id, api_private_key) = match (key_id, private_key) {
        (Some(id), Some(pk)) => (Some(id), Some(pk)),
        _ => {
            if require_auth {
                return Err(SettingsError::MissingCredentials);
            }
            (None, None)
        },
    };
    Ok(
        ClientEnv {
            api_url: nonblank_env(env, API_URL_ENV),
            ws_url: nonblank_env(env, WS_URL_ENV),
            default_account_id: nonblank_env(env, ACCOUNT_ID_ENV),
            default_sub_account_id: nonblank_env(env, SUB_ACCOUNT_ID_ENV),
            api_key_id,
            api_private_key,
        },
    )
}

// ---------------------------------------------------------------------------
// `.env` files
// ---------------------------------------------------------------------------

/// The pieces of `s` between occurrences of `sep` (as `str::split` gives them).
pub open spec fn split_seq(s: Seq<char>, sep: char) -> Seq<Seq<char>>
    decreases s.len(),
{
    if s.len() == 0 {
        seq![Seq::<char>::empty()]
    } else {
        let p = split_seq(s.drop_last(), sep);
        if s.last() == sep {
            p.push(Seq::<char>::empty())
        } else {
            p.update(p.len() - 1, p.last().push(s.last()))
        }
    }
}

pub open spec fn is_quote(c: char) -> bool {
    c == '"' || c == '\''
}

pub open spec fn strip_quotes_start(s: Seq<char>) -> Seq<char>
    decreases s.len(),
{
    if s.len() > 0 && is_quote(s[0]) {
        strip_quotes_start(s.drop_first())
    } else {
        s
    }
}

pub open spec fn strip_quotes_end(s: Seq<char>) -> Seq<char>
    decreases s.len(),
{
    if s.len() > 0 && is_quote(s.last()) {
        strip_quotes_end(s.drop_last())
    } else {
        s
    }
}

/// `s` with all leading and trailing `"` and `'` removed.
pub open spec fn strip_quotes(s: Seq<char>) -> Seq<char> {
    strip_quotes_end(strip_quotes_start(s))
}

/// One `.env` line: after trimming, blank lines, `#` comments and lines
/// without `=` are skipped; otherwise the key is the trimmed text before the
/// first `=` and the value the trimmed text after it with surrounding quotes
/// removed. An empty key is skipped.
pub open spec fn dotenv_line(l: Seq<char>) -> Option<(Seq<char>, Seq<char>)> {
    let line = trim_seq(l);
    if line.len() == 0 || line[0] == '#' || !line.contains('=') {
        None
    } else {
        let k = before_char(line, '=');
        let key = trim_seq(k);
        let value = strip_quotes(trim_seq(line.subrange(k.len() as int + 1, line.len() as int)));
        if key.len() == 0 {
            None
        } else {
            Some((key, value))
        }
    }
}

/// The entries of a sequence of `.env` lines, in order.
pub open spec fn dotenv_entries(lines: Seq<Seq<char>>) -> Seq<(Seq<char>, Seq<char>)>
    decreases lines.len(),
{
    if lines.len() == 0 {
        Seq::empty()
    } else {
        let rest = dotenv_entries(lines.drop_last());
        match dotenv_line(lines.last()) {
            Some(e) => rest.push(e),
            None => rest,
        }
    }
}

/// The entries of a `.env` text. Lines are split at `\n`; a `\r` before it is
/// white space and is trimmed with the rest of the line.
pub open spec fn dotenv_spec(text: Seq<char>) -> Seq<(Seq<char>, Seq<char>)> {
    dotenv_entries(split_seq(text, '\n'))
}

/// The characters of the pairs of strings.
pub open spec fn pairs_chars(v: Seq<(String, String)>) -> Seq<(Seq<char>, Seq<char>)> {
    v.map_values(|p: (String, String)| (p.0@, p.1@))
}

/// `s` with surrounding quote characters removed.
pub fn strip_quote_chars(s: &Vec<char>) -> (r: Vec<char>)
    ensures
        r@ == strip_quotes(s@),
{
    let n = s.len();
    let mut i: usize = 0;
    assert(s@.subrange(0, n as int) =~= s@);
    while i < n && (s[i] == '"' || s[i] == '\'')
        invariant
            i <= n == s.len(),
            strip_quotes_start(s@) == strip_quotes_start(s@.subrange(i as int, n as int)),
        decreases n - i,
    {
        assert(s@.subrange(i as int, n as int).drop_first() =~= s@.subrange(i + 1, n as int));
        i = i + 1;
    }
    let ghost start = s@.subrange(i as int, n as int);
    assert(strip_quotes_start(start) == start) by {
        if i < n {
            assert(start[0] == s@[i as int]);
        }
    }
    let mut j: usize = n;
    while j > i && (s[j - 1] == '"' || s[j - 1] == '\'')
        invariant
            i <= j <= n == s.len(),
            strip_quotes_end(s@.subrange(i as int, n as int)) == strip_quotes_end(
                s@.subrange(i as int, j as int),
            ),
        decreases j - i,
    {
        assert(s@.subrange(i as int, j as int).drop_last() =~= s@.subrange(i as int, j - 1));
        j = j - 1;
    }
    let ghost fin = s@.subrange(i as int, j as int);
    assert(strip_quotes_end(fin) == fin) by {
        if j > i {
            assert(fin.last() == s@[j - 1]);
        }
    }
    crate::text::sub_chars(s, i, j)
}

/// Parses one `.env` line.
pub fn dotenv_line_exec(l: &Vec<char>) -> (r: Option<(String, String)>)
    ensures
        match r {
            Some(p) => dotenv_line(l@) == Some((p.0@, p.1@)),
            None => dotenv_line(l@) is None,
        },
{
    let line = trim_chars(l);
    let n = line.len();
    if n == 0 || line[0] == '#' {
        return None;
    }
    let mut k: usize = 0;
    while k < n && line[k] != '='
        invariant
            k <= n == line.len(),
            forall|j: int| 0 <= j < k ==> line@[j] != '=',
        decreases n - k,
    {
        k = k + 1;
    }
    if k == n {
        assert(!line@.contains('='));
        return None;
    }
    assert(line@.contains('=')) by {
        assert(line@[k as int] == '=');
    }
    proof {
        crate::text::lemma_before_char(line@, '=', k as int);
    }
    let key = trim_chars(&crate::text::sub_chars(&line, 0, k));
    let value = strip_quote_chars(&trim_chars(&crate::text::sub_chars(&line, k + 1, n)));
    if key.len() == 0 {
        return None;
    }
    Some((string_from_chars(&key), string_from_chars(&value)))
}

proof fn lemma_split_seq_nonempty(s: Seq<char>, sep: char)
    ensures
        split_seq(s, sep).len() >= 1,
    decreases s.len(),
{
    if s.len() > 0 {
        lemma_split_seq_nonempty(s.drop_last(), sep);
    }
}

/// The entries of a `.env` text (the part of `load_dotenv` that does not read
/// the file or set variables).
pub fn parse_dotenv(text: &str) -> (r: Vec<(String, String)>)
    ensures
        pairs_chars(r@) == dotenv_spec(text@),
{
    let chars = chars_of(text);
    let n = chars.len();
    let mut out: Vec<(String, String)> = Vec::new();
    let mut cur: Vec<char> = Vec::new();
    let ghost mut done: Seq<Seq<char>> = Seq::empty();
    assert(chars@.subrange(0, 0) =~= Seq::<char>::empty());
    assert(split_seq(Seq::<char>::empty(), '\n') =~= done.push(cur@));
    for i in 0..n
        invariant
            n == chars.len(),
            split_seq(chars@.subrange(0, i as int), '\n') =~= done.push(cur@),
            pairs_chars(out@) =~= dotenv_entries(done),
    {
        let c = chars[i];
        let ghost pre = chars@.subrange(0, i as int);
        let ghost pre1 = chars@.subrange(0, i + 1);
        assert(pre1.drop_last() =~= pre);
        assert(pre1.last() == c);
        if c == '\n' {
            let ghost d0 = done;
            match dotenv_line_exec(&cur) {
                Some(p) => {
                    out.push(p);
                },
                None => {},
            }
            proof {
                done = done.push(cur@);
                assert(done.drop_last() =~= d0);
                assert(done.last() == cur@);
            }
            cur = Vec::new();
            assert(split_seq(pre1, '\n') =~= done.push(cur@));
        } else {
            let ghost c0 = cur@;
            cur.push(c);
            proof {
                lemma_split_seq_nonempty(pre, '\n');
            }
            assert(split_seq(pre1, '\n') =~= done.push(cur@));
        }
    }
    let ghost d0 = done;
    match dotenv_line_exec(&cur) {
        Some(p) => {
            out.push(p);
        },
        None => {},
    }
    proof {
        done = done.push(cur@);
        assert(done.drop_last() =~= d0);
        assert(chars@.subrange(0, n as int) =~= text@);
    }
    out
}

/// The keys of entries.
pub open spec fn entry_keys(entries: Seq<(Seq<char>, Seq<char>)>) -> Seq<Seq<char>> {
    entries.map_values(|e: (Seq<char>, Seq<char>)| e.0)
}

/// The `.env` entries that are applied, in order: an entry is skipped when
/// its variable is already set in the process, or was set by an earlier
/// entry, so a set variable is never overridden.
pub open spec fn dotenv_apply_spec(
    entries: Seq<(Seq<char>, Seq<char>)>,
    present: Seq<Seq<char>>,
) -> Seq<(Seq<char>, Seq<char>)>
    decreases entries.len(),
{
    if entries.len() == 0 {
        Seq::empty()
    } else {
        let rest = dotenv_apply_spec(entries.drop_last(), present);
        let e = entries.last();
        if present.contains(e.0) || entry_keys(rest).contains(e.0) {
            rest
        } else {
            rest.push(e)
        }
    }
}

/// The texts of a list of character vectors.
pub open spec fn char_views(v: Seq<Vec<char>>) -> Seq<Seq<char>> {
    v.map_values(|c: Vec<char>| c@)
}

/// The texts of a list of strings.
pub open spec fn string_views(v: Seq<String>) -> Seq<Seq<char>> {
    v.map_values(|s: String| s@)
}

/// Whether `key` is one of `names`.
fn has_name(names: &Vec<Vec<char>>, key: &Vec<char>) -> (r: bool)
    ensures
        r == char_views(names@).contains(key@),
{
    let ghost view = char_views(names@);
    for i in 0..names.len()
        invariant
            view == char_views(names@),
            forall|j: int| 0 <= j < i ==> view[j] != key@,
    {
        if chars_eq(&names[i], key) {
            assert(view[i as int] == key@);
            return true;
        }
    }
    false
}

/// The `.env` entries to apply given the variables already set (the
/// decision of `load_dotenv`).
pub fn dotenv_to_apply(entries: &Vec<(String, String)>, present: &Vec<String>) -> (r: Vec<
    (String, String),
>)
    ensures
        pairs_chars(r@) == dotenv_apply_spec(pairs_chars(entries@), string_views(present@)),
{
    let ghost pv = string_views(present@);
    let mut present_chars: Vec<Vec<char>> = Vec::new();
    for i in 0..present.len()
        invariant
            pv == string_views(present@),
            char_views(present_chars@) == pv.subrange(0, i as int),
    {
        let c = chars_of(present[i].as_str());
        assert(c@ == pv[i as int]);
        let ghost before = present_chars@;
        present_chars.push(c);
        assert(present_chars@ == before.push(c));
        assert(char_views(present_chars@) =~= char_views(before).push(c@));
        assert(char_views(present_chars@) =~= pv.subrange(0, i + 1));
    }
    assert(pv.subrange(0, present.len() as int) =~= pv);
    let mut out: Vec<(String, String)> = Vec::new();
    let mut kept: Vec<Vec<char>> = Vec::new();
    assert(entries@.subrange(0, 0) =~= Seq::<(String, String)>::empty());
    assert(pairs_chars(out@) =~= Seq::<(Seq<char>, Seq<char>)>::empty());
    assert(char_views(kept@) =~= entry_keys(pairs_chars(out@)));
    for i in 0..entries.len()
        invariant
            char_views(present_chars@) == pv,
            pairs_chars(out@) == dotenv_apply_spec(pairs_chars(entries@.subrange(0, i as int)), pv),
            char_views(kept@) == entry_keys(pairs_chars(out@)),
    {
        let ghost pre = pairs_chars(entries@.subrange(0, i as int));
        let ghost pre1 = pairs_chars(entries@.subrange(0, i + 1));
        assert(pre1.drop_last() =~= pre);
        assert(pre1.last() == (entries@[i as int].0@, entries@[i as int].1@));
        let key = chars_of(entries[i].0.as_str());
        if !has_name(&present_chars, &key) && !has_name(&kept, &key) {
            let ghost o = out@;
            let ghost k0 = kept@;
            out.push((entries[i].0.clone(), entries[i].1.clone()));
            kept.push(key);
            assert(pairs_chars(out@) =~= pairs_chars(o).push(pre1.last()));
            assert(char_views(kept@) =~= char_views(k0).push(key@));
            assert(entry_keys(pairs_chars(out@)) =~= entry_keys(pairs_chars(o)).push(key@));
        }
    }
    assert(entries@.subrange(0, entries.len() as int) =~= entries@);
    out
}

// ---------------------------------------------------------------------------
// Laws
// ---------------------------------------------------------------------------

/// Each setting is read from its own variable alone: two environments that
/// agree on a setting's variable give that setting the same value, whatever
/// the other variables hold.
pub proof fn lemma_settings_read_own_variables(
    s1: ExampleSettings,
    e1: Seq<(String, String)>,
    s2: ExampleSettings,
    e2: Seq<(String, String)>,
)
    requires
        settings_spec(s1, e1),
        settings_spec(s2, e2),
    ensures
        env_lookup(e1, EXAMPLES_SYMBOL_ENV@) == env_lookup(e2, EXAMPLES_SYMBOL_ENV@) ==> s1.symbol@ == s2.symbol@,
        env_lookup(e1, EXAMPLES_TIMEFRAME_ENV@) == env_lookup(e2, EXAMPLES_TIMEFRAME_ENV@) ==> s1.timeframe@ == s2.timeframe@,
        env_lookup(e1, EXAMPLES_CANDLE_LIMIT_ENV@) == env_lookup(e2, EXAMPLES_CANDLE_LIMIT_ENV@) ==> s1.candle_limit as nat == s2.candle_limit as nat,
        env_lookup(e1, EXAMPLES_ENABLE_TRADING_ENV@) == env_lookup(e2, EXAMPLES_ENABLE_TRADING_ENV@) ==> s1.enable_trading == s2.enable_trading,
        env_lookup(e1, EXAMPLES_MAX_QUOTE_ENV@) == env_lookup(e2, EXAMPLES_MAX_QUOTE_ENV@) ==> s1.max_quote == s2.max_quote,
        env_lookup(e1, EXAMPLES_RSI_PERIOD_ENV@) == env_lookup(e2, EXAMPLES_RSI_PERIOD_ENV@) ==> s1.rsi_period as nat == s2.rsi_period as nat,
        env_lookup(e1, EXAMPLES_RSI_OVERSOLD_ENV@) == env_lookup(e2, EXAMPLES_RSI_OVERSOLD_ENV@) ==> s1.rsi_oversold == s2.rsi_oversold,
        env_lookup(e1, EXAMPLES_RSI_OVERBOUGHT_ENV@) == env_lookup(e2, EXAMPLES_RSI_OVERBOUGHT_ENV@) ==> s1.rsi_overbought == s2.rsi_overbought,
        env_lookup(e1, EXAMPLES_STREAM_COUNT_ENV@) == env_lookup(e2, EXAMPLES_STREAM_COUNT_ENV@) ==> s1.stream_count as nat == s2.stream_count as nat,
        env_lookup(e1, EXAMPLES_ORDERBOOK_DEPTH_ENV@) == env_lookup(e2, EXAMPLES_ORDERBOOK_DEPTH_ENV@) ==> s1.orderbook_depth as nat == s2.orderbook_depth as nat,
        env_lookup(e1, EXAMPLES_ENABLE_TRANSFERS_ENV@) == env_lookup(e2, EXAMPLES_ENABLE_TRANSFERS_ENV@) ==> s1.enable_transfers == s2.enable_transfers,
        env_lookup(e1, EXAMPLES_ENABLE_WITHDRAWALS_ENV@) == env_lookup(e2, EXAMPLES_ENABLE_WITHDRAWALS_ENV@) ==> s1.enable_withdrawals == s2.enable_withdrawals,
        env_lookup(e1, EXAMPLES_ENABLE_CHAIN_FUNDING_TO_TRADING_ENV@) == env_lookup(e2, EXAMPLES_ENABLE_CHAIN_FUNDING_TO_TRADING_ENV@) ==> s1.enable_chain_funding_to_trading == s2.enable_chain_funding_to_trading,
        env_lookup(e1, EXAMPLES_ENABLE_CHAIN_EXTERNAL_SUBMIT_ENV@) == env_lookup(e2, EXAMPLES_ENABLE_CHAIN_EXTERNAL_SUBMIT_ENV@) ==> s1.enable_chain_external_submit == s2.enable_chain_external_submit,
        env_lookup(e1, EXAMPLES_TRANSFER_DEST_ACCOUNT_ID_ENV@) == env_lookup(e2, EXAMPLES_TRANSFER_DEST_ACCOUNT_ID_ENV@) ==> s1.transfer_dest_account_id@ == s2.transfer_dest_account_id@,
        env_lookup(e1, EXAMPLES_TRANSFER_AMOUNT_ENV@) == env_lookup(e2, EXAMPLES_TRANSFER_AMOUNT_ENV@) ==> s1.transfer_amount == s2.transfer_amount,
        env_lookup(e1, EXAMPLES_WITHDRAW_AMOUNT_ENV@) == env_lookup(e2, EXAMPLES_WITHDRAW_AMOUNT_ENV@) ==> s1.withdraw_amount == s2.withdraw_amount,
        env_lookup(e1, EXAMPLES_CHAIN_AMOUNT_ENV@) == env_lookup(e2, EXAMPLES_CHAIN_AMOUNT_ENV@) ==> s1.chain_amount == s2.chain_amount,
        env_lookup(e1, EXAMPLES_EXTERNAL_DESTINATION_ENV@) == env_lookup(e2, EXAMPLES_EXTERNAL_DESTINATION_ENV@) ==> s1.external_destination@ == s2.external_destination@,
        env_lookup(e1, EXAMPLES_EXTERNAL_CHAIN_ID_ENV@) == env_lookup(e2, EXAMPLES_EXTERNAL_CHAIN_ID_ENV@) ==> s1.external_chain_id as nat == s2.external_chain_id as nat,
        env_lookup(e1, OWNER_PRIVATE_KEY_ENV@) == env_lookup(e2, OWNER_PRIVATE_KEY_ENV@) ==> s1.owner_private_key@ == s2.owner_private_key@,
{
}

/// What each setting is when its variable is unset (the documented
/// default), and, for text, flags and decimals, what it is when set: the
/// trimmed text when not blank; a flag when the trimmed, lower-cased value is
/// `1`, `true`, `yes` or `on`; the trimmed value parsed as a decimal when it
/// parses, else the default.
pub proof fn lemma_settings_values(s: ExampleSettings, env: Seq<(String, String)>)
    requires
        settings_spec(s, env),
    ensures
        env_lookup(env, EXAMPLES_SYMBOL_ENV@) is None ==> s.symbol@ == "BTC-USDT"@,
        env_lookup(env, EXAMPLES_TIMEFRAME_ENV@) is None ==> s.timeframe@ == "1m"@,
        env_lookup(env, EXAMPLES_CANDLE_LIMIT_ENV@) is None ==> s.candle_limit as nat == 100,
        env_lookup(env, EXAMPLES_ENABLE_TRADING_ENV@) is None ==> s.enable_trading == false,
        env_lookup(env, EXAMPLES_MAX_QUOTE_ENV@) is None ==> s.max_quote == dec_int(10),
        env_lookup(env, EXAMPLES_RSI_PERIOD_ENV@) is None ==> s.rsi_period as nat == 14,
        env_lookup(env, EXAMPLES_RSI_OVERSOLD_ENV@) is None ==> s.rsi_oversold == dec_int(30),
        env_lookup(env, EXAMPLES_RSI_OVERBOUGHT_ENV@) is None ==> s.rsi_overbought == dec_int(70),
        env_lookup(env, EXAMPLES_STREAM_COUNT_ENV@) is None ==> s.stream_count as nat == 5,
        env_lookup(env, EXAMPLES_ORDERBOOK_DEPTH_ENV@) is None ==> s.orderbook_depth as nat == 50,
        env_lookup(env, EXAMPLES_ENABLE_TRANSFERS_ENV@) is None ==> s.enable_transfers == false,
        env_lookup(env, EXAMPLES_ENABLE_WITHDRAWALS_ENV@) is None ==> s.enable_withdrawals == false,
        env_lookup(env, EXAMPLES_ENABLE_CHAIN_FUNDING_TO_TRADING_ENV@) is None ==> s.enable_chain_funding_to_trading == false,
        env_lookup(env, EXAMPLES_ENABLE_CHAIN_EXTERNAL_SUBMIT_ENV@) is None ==> s.enable_chain_external_submit == false,
        env_lookup(env, EXAMPLES_TRANSFER_DEST_ACCOUNT_ID_ENV@) is None ==> s.transfer_dest_account_id@ == ""@,
        env_lookup(env, EXAMPLES_TRANSFER_AMOUNT_ENV@) is None ==> s.transfer_amount == dec_new(1, 2),
        env_lookup(env, EXAMPLES_WITHDRAW_AMOUNT_ENV@) is None ==> s.withdraw_amount == dec_new(1, 2),
        env_lookup(env, EXAMPLES_CHAIN_AMOUNT_ENV@) is None ==> s.chain_amount == dec_int(1),
        env_lookup(env, EXAMPLES_EXTERNAL_DESTINATION_ENV@) is None ==> s.external_destination@ == ""@,
        env_lookup(env, EXAMPLES_EXTERNAL_CHAIN_ID_ENV@) is None ==> s.external_chain_id as nat == 6,
        env_lookup(env, OWNER_PRIVATE_KEY_ENV@) is None ==> s.owner_private_key@ == ""@,
        env_lookup(env, EXAMPLES_SYMBOL_ENV@) matches Some(v) ==> s.symbol@ == if trim_seq(v).len() > 0 {
            trim_seq(v)
        } else {
            "BTC-USDT"@
        },
        env_lookup(env, EXAMPLES_TIMEFRAME_ENV@) matches Some(v) ==> s.timeframe@ == if trim_seq(v).len() > 0 {
            trim_seq(v)
        } else {
            "1m"@
        },
        env_lookup(env, EXAMPLES_ENABLE_TRADING_ENV@) matches Some(v) ==> (s.enable_trading <==> {
            let l = ascii_lower_seq(trim_seq(v));
            l == "1"@ || l == "true"@ || l == "yes"@ || l == "on"@
        }),
        env_lookup(env, EXAMPLES_MAX_QUOTE_ENV@) matches Some(v) ==> s.max_quote == match decimal_from_str(trim_seq(v)) {
            Some(d) => d,
            None => dec_int(10),
        },
        env_lookup(env, EXAMPLES_RSI_OVERSOLD_ENV@) matches Some(v) ==> s.rsi_oversold == match decimal_from_str(trim_seq(v)) {
            Some(d) => d,
            None => dec_int(30),
        },
        env_lookup(env, EXAMPLES_RSI_OVERBOUGHT_ENV@) matches Some(v) ==> s.rsi_overbought == match decimal_from_str(trim_seq(v)) {
            Some(d) => d,
            None => dec_int(70),
        },
        env_lookup(env, EXAMPLES_ENABLE_TRANSFERS_ENV@) matches Some(v) ==> (s.enable_transfers <==> {
            let l = ascii_lower_seq(trim_seq(v));
            l == "1"@ || l == "true"@ || l == "yes"@ || l == "on"@
        }),
        env_lookup(env, EXAMPLES_ENABLE_WITHDRAWALS_ENV@) matches Some(v) ==> (s.enable_withdrawals <==> {
            let l = ascii_lower_seq(trim_seq(v));
            l == "1"@ || l == "true"@ || l == "yes"@ || l == "on"@
        }),
        env_lookup(env, EXAMPLES_ENABLE_CHAIN_FUNDING_TO_TRADING_ENV@) matches Some(v) ==> (s.enable_chain_funding_to_trading <==> {
            let l = ascii_lower_seq(trim_seq(v));
            l == "1"@ || l == "true"@ || l == "yes"@ || l == "on"@
        }),
        env_lookup(env, EXAMPLES_ENABLE_CHAIN_EXTERNAL_SUBMIT_ENV@) matches Some(v) ==> (s.enable_chain_external_submit <==> {
            let l = ascii_lower_seq(trim_seq(v));
            l == "1"@ || l == "true"@ || l == "yes"@ || l == "on"@
        }),
        env_lookup(env, EXAMPLES_TRANSFER_DEST_ACCOUNT_ID_ENV@) matches Some(v) ==> s.transfer_dest_account_id@ == if trim_seq(v).len() > 0 {
            trim_seq(v)
        } else {
            ""@
        },
        env_lookup(env, EXAMPLES_TRANSFER_AMOUNT_ENV@) matches Some(v) ==> s.transfer_amount == match decimal_from_str(trim_seq(v)) {
            Some(d) => d,
            None => dec_new(1, 2),
        },
        env_lookup(env, EXAMPLES_WITHDRAW_AMOUNT_ENV@) matches Some(v) ==> s.withdraw_amount == match decimal_from_str(trim_seq(v)) {
            Some(d) => d,
            None => dec_new(1, 2),
        },
        env_lookup(env, EXAMPLES_CHAIN_AMOUNT_ENV@) matches Some(v) ==> s.chain_amount == match decimal_from_str(trim_seq(v)) {
            Some(d) => d,
            None => dec_int(1),
        },
        env_lookup(env, EXAMPLES_EXTERNAL_DESTINATION_ENV@) matches Some(v) ==> s.external_destination@ == if trim_seq(v).len() > 0 {
            trim_seq(v)
        } else {
            ""@
        },
        env_lookup(env, OWNER_PRIVATE_KEY_ENV@) matches Some(v) ==> s.owner_private_key@ == if trim_seq(v).len() > 0 {
            trim_seq(v)
        } else {
            ""@
        },
{
}

/// Each opt-in gate reads only its own settings: the trading flag gates
/// only order writes, and no other gate reads it. Two settings that agree on
/// a gate's own fields get the same decision from that gate.
pub proof fn lemma_gates_are_separate(a: ExampleSettings, b: ExampleSettings)
    ensures
        a.enable_trading == b.enable_trading ==> trading_gate(a) == trading_gate(b),
        (a.enable_transfers == b.enable_transfers && a.transfer_dest_account_id@
            == b.transfer_dest_account_id@) ==> transfers_gate(a) == transfers_gate(b),
        a.enable_withdrawals == b.enable_withdrawals ==> withdrawals_gate(a) == withdrawals_gate(b),
        a.enable_chain_funding_to_trading == b.enable_chain_funding_to_trading ==> chain_funding_gate(
            a,
        ) == chain_funding_gate(b),
        a.owner_private_key@ == b.owner_private_key@ ==> owner_key_gate(a) == owner_key_gate(b),
{
}

/// A blank value is never taken for template text.
pub proof fn lemma_blank_is_not_placeholder(value: Seq<char>)
    ensures
        trim_seq(value).len() == 0 ==> !placeholder_spec(value),
{
}

/// Template text is still recognised when other text surrounds it, and when
/// its ASCII letters are upper-cased: neither hides a placeholder.
pub proof fn lemma_placeholder_survives_context_and_case(
    a: Seq<char>,
    v: Seq<char>,
    b: Seq<char>,
)
    requires
        placeholder_spec(v),
    ensures
        placeholder_spec(a + v + b),
        placeholder_spec(ascii_upper_seq(v)),
{
    let (i, j) = crate::text::trim_bounds(v);
    let w = a + v + b;
    let (k, l) = crate::text::trim_bounds(w);
    let tv = trim_seq(v);
    assert(ascii_lower_seq(tv).len() == tv.len());
    assert(i < j);
    assert(w[a.len() + i] == v[i]);
    assert(w[a.len() + j - 1] == v[j - 1]);
    assert(k <= a.len() + i);
    assert(l >= a.len() + j);
    let tw = trim_seq(w);
    let o = a.len() + i - k;
    assert(tv =~= tw.subrange(o, o + tv.len()));
    let lv = ascii_lower_seq(tv);
    let lw = ascii_lower_seq(tw);
    assert(lv =~= lw.subrange(o, o + lv.len()));
    assert(lw.len() > 0);
    if contains_seq(lv, "your_"@) {
        crate::text::lemma_contains_in_larger(lw, o, lv, "your_"@);
    }
    if contains_seq(lv, "_here"@) {
        crate::text::lemma_contains_in_larger(lw, o, lv, "_here"@);
    }
    if contains_seq(lv, "replace_me"@) {
        crate::text::lemma_contains_in_larger(lw, o, lv, "replace_me"@);
    }
    if contains_seq(lv, "changeme"@) {
        crate::text::lemma_contains_in_larger(lw, o, lv, "changeme"@);
    }
    crate::text::lemma_trim_upper(v);
    crate::text::lemma_lower_of_upper(tv);
}

/// Every `.env` entry has a non-empty key without `=`.
pub proof fn lemma_dotenv_keys_nonempty(lines: Seq<Seq<char>>)
    ensures
        forall|i: int|
            0 <= i < dotenv_entries(lines).len() ==> (#[trigger] dotenv_entries(lines)[i]).0.len()
                > 0,
    decreases lines.len(),
{
    if lines.len() > 0 {
        lemma_dotenv_keys_nonempty(lines.drop_last());
        let rest = dotenv_entries(lines.drop_last());
        assert forall|i: int|
            0 <= i < dotenv_entries(lines).len() implies (#[trigger] dotenv_entries(
            lines,
        )[i]).0.len() > 0 by {
            if i < rest.len() {
                assert(dotenv_entries(lines)[i] == rest[i]);
            }
        }
    }
}

/// Loading a `.env` never overrides a variable that is already set, and
/// sets each variable at most once (the first entry for it wins).
pub proof fn lemma_dotenv_never_overrides(
    entries: Seq<(Seq<char>, Seq<char>)>,
    present: Seq<Seq<char>>,
)
    ensures
        forall|i: int|
            0 <= i < dotenv_apply_spec(entries, present).len() ==> !present.contains(
                (#[trigger] dotenv_apply_spec(entries, present)[i]).0,
            ),
        forall|i: int, j: int|
            0 <= i < j < dotenv_apply_spec(entries, present).len() ==> (#[trigger] dotenv_apply_spec(
                entries,
                present,
            )[i]).0 != (#[trigger] dotenv_apply_spec(entries, present)[j]).0,
    decreases entries.len(),
{
    if entries.len() > 0 {
        lemma_dotenv_never_overrides(entries.drop_last(), present);
        let rest = dotenv_apply_spec(entries.drop_last(), present);
        let e = entries.last();
        let all = dotenv_apply_spec(entries, present);
        if !(present.contains(e.0) || entry_keys(rest).contains(e.0)) {
            assert(all == rest.push(e));
            assert forall|i: int| 0 <= i < all.len() implies !present.contains(
                (#[trigger] all[i]).0,
            ) by {
                if i < rest.len() {
                    assert(all[i] == rest[i]);
                }
            }
            assert forall|i: int, j: int| 0 <= i < j < all.len() implies (#[trigger] all[i]).0
                != (#[trigger] all[j]).0 by {
                assert(all[i] == rest[i]);
                if j < rest.len() {
                    assert(all[j] == rest[j]);
                } else {
                    assert(all[j] == e);
                    assert(entry_keys(rest)[i] == rest[i].0);
                }
            }
        }
    }
}

} // verus!
