//! Symbol choice, pair metadata, and price / quantity sizing for the trading
//! examples.
use crate::decimal::{
    dec_ceil, dec_eq, dec_int, dec_lt, dec_min, dec_new, dec_normalize, dec_text, dec_to_i64,
    dec_trunc, dec_zero, decimal_checked_div, decimal_checked_mul, decimal_from_str,
    mantissa_digits, padded_digits, pow10, unsigned_text, zeros, Dec,
};
use crate::text::{
    all_digits, before_char, digits_value, chars_eq, chars_of, concat_chars, digit_char, find_char, is_digit_char,
    nat_digits, parse_u128_chars, parse_unsigned, string_from_chars, sub_chars, trim_chars,
    trim_end_char, trim_end_char_exec, trim_seq, trim_start_char, trimmed_chars, u128_digits,
};
use polyester::Client;
use vstd::prelude::*;

verus! {

#[verifier::external_type_specification]
#[verifier::external_body]
pub struct ExClient(Client);

// ---------------------------------------------------------------------------
// Outside calls
// ---------------------------------------------------------------------------

/// What `polyester::codecs::scalars::parse_price_ticks_str` accepts and
/// returns. After trimming white space the text must be strict: one or more
/// ASCII digits, optionally a `.` and one or more ASCII digits. Trailing
/// fraction zeros are dropped, at most six fraction digits may remain, and
/// the value times `10^6` must fit in `i64`; that value is the result.
pub open spec fn price_ticks_of(raw: Seq<char>) -> Option<i64> {
    let t = trim_seq(raw);
    let int_part = before_char(t, '.');
    let has_point = int_part.len() < t.len();
    let frac = if has_point {
        t.subrange(int_part.len() as int + 1, t.len() as int)
    } else {
        Seq::<char>::empty()
    };
    let kept = trim_end_char(frac, '0');
    if int_part.len() > 0 && all_digits(int_part) && (has_point ==> frac.len() > 0 && all_digits(
        frac,
    )) && kept.len() <= 6 {
        let v = digits_value(int_part) * pow10(6) + digits_value(kept) * pow10(
            (6 - kept.len()) as nat,
        );
        if v <= i64::MAX {
            Some(v as i64)
        } else {
            None
        }
    } else {
        None
    }
}

/// What `format!("{:?}", s)` writes for a string slice.
pub uninterp spec fn str_debug_text(s: Seq<char>) -> Seq<char>;

/// Calls `polyester::codecs::scalars::parse_price_ticks_str`. Claimed: it
/// succeeds exactly when `price_ticks_of` gives a value, and returns that
/// value, which is not negative. The error text (which names `field_name`)
/// is not stated.
#[verifier::external_body]
fn parse_price_ticks(raw: &str, field_name: &str) -> (r: Result<i64, String>)
    ensures
        r is Ok <==> price_ticks_of(raw@) is Some,
        r matches Ok(v) ==> price_ticks_of(raw@) == Some(v) && v >= 0,
{
    match polyester::codecs::scalars::parse_price_ticks_str(raw, field_name) {
        Ok(v) => Ok(v),
        Err(e) => Err(e.to_string()),
    }
}

/// `v / 10^scale` written the way the SDK formats scaled integers: integer
/// digits without leading zeros (at least `0`), then `.` and the fraction
/// digits without trailing zeros when any remain, with a leading `-` for a
/// negative value.
pub open spec fn scaled_text(v: int, scale: nat) -> Seq<char> {
    let digits = nat_digits((if v < 0 {
        -v
    } else {
        v
    }) as nat);
    let width = scale + 1;
    let padded = if digits.len() < width {
        zeros((width - digits.len()) as nat) + digits
    } else {
        digits
    };
    let head0 = trim_start_char(padded.subrange(0, padded.len() - scale), '0');
    let head = if head0.len() == 0 {
        seq!['0']
    } else {
        head0
    };
    let tail = trim_end_char(padded.subrange(padded.len() - scale, padded.len() as int), '0');
    let raw = if tail.len() == 0 {
        head
    } else {
        head + seq!['.'] + tail
    };
    if v < 0 {
        seq!['-'] + raw
    } else {
        raw
    }
}

/// Calls `polyester::codecs::scalars::format_price_ticks`. Claimed: it writes
/// the ticks as a decimal with six fraction digits, trimmed as the SDK trims.
#[verifier::external_body]
fn format_price_ticks(ticks: i64) -> (r: String)
    ensures
        r@ == scaled_text(ticks as int, 6),
{
    polyester::codecs::scalars::format_price_ticks(ticks)
}

/// Calls `format!("{:?}", s)`. Claimed: the result is its named result.
#[verifier::external_body]
fn debug_text(s: &str) -> (r: String)
    ensures
        r@ == str_debug_text(s@),
{
    format!("{:?}", s)
}

/// Calls `Catalogs::ledger_id_for_asset` on the client's hydrated catalogs.
/// The catalogs change as they are hydrated, so nothing is claimed of the
/// result.
#[verifier::external_body]
fn ledger_id_for_asset(client: &Client, asset: &str) -> (r: Option<u32>) {
    client.catalogs.ledger_id_for_asset(asset)
}

// ---------------------------------------------------------------------------
// Pairs and symbols
// ---------------------------------------------------------------------------

/// The pair metadata the helpers read (from the spot configuration).
#[derive(Debug)]
pub struct PairConfig {
    pub symbol: String,
    pub base_asset: String,
    pub quote_asset: String,
    pub tick_size: String,
    pub step_size: String,
    pub min_notional_quote: String,
    pub min_qty_base: String,
    pub base_quantity_scale: u32,
}

/// The symbols that are listed: those whose trimmed text is not empty, in
/// order.
pub open spec fn listed_symbols(pairs: Seq<PairConfig>) -> Seq<Seq<char>>
    decreases pairs.len(),
{
    if pairs.len() == 0 {
        Seq::empty()
    } else {
        let rest = listed_symbols(pairs.drop_last());
        if trim_seq(pairs.last().symbol@).len() > 0 {
            rest.push(pairs.last().symbol@)
        } else {
            rest
        }
    }
}

/// The symbols tried after the preferred one, in order.
pub open spec fn candidates() -> Seq<Seq<char>> {
    seq!["BTC-USDT"@, "ETH-USDT"@, "SOL-USDT"@, "BNB-USDT"@]
}

/// The first candidate from index `i` on that is listed.
pub open spec fn first_listed_candidate(listed: Seq<Seq<char>>, i: nat) -> Option<Seq<char>>
    decreases 4 - i,
{
    if i >= 4 {
        None
    } else if listed.contains(candidates()[i as int]) {
        Some(candidates()[i as int])
    } else {
        first_listed_candidate(listed, i + 1)
    }
}

/// The symbol `pick_symbol` chooses: the trimmed preferred symbol when it is
/// listed, else the first listed candidate, else the first listed symbol,
/// else `BTC-USDT`.
pub open spec fn pick_symbol_spec(listed: Seq<Seq<char>>, preferred: Seq<char>) -> Seq<char> {
    let p = trim_seq(preferred);
    if p.len() > 0 && listed.contains(p) {
        p
    } else {
        match first_listed_candidate(listed, 0) {
            Some(c) => c,
            None => if listed.len() > 0 {
                listed[0]
            } else {
                "BTC-USDT"@
            },
        }
    }
}

/// The listed symbols, in order.
fn listed_symbol_chars(pairs: &[PairConfig]) -> (r: Vec<Vec<char>>)
    ensures
        r@.map_values(|v: Vec<char>| v@) == listed_symbols(pairs@),
{
    let mut r: Vec<Vec<char>> = Vec::new();
    for i in 0..pairs.len()
        invariant
            r@.map_values(|v: Vec<char>| v@) == listed_symbols(pairs@.subrange(0, i as int)),
    {
        let ghost pre = pairs@.subrange(0, i as int);
        let ghost pre1 = pairs@.subrange(0, i + 1);
        assert(pre1.drop_last() =~= pre);
        assert(pre1.last() == pairs@[i as int]);
        let s = chars_of(pairs[i].symbol.as_str());
        if trim_chars(&s).len() > 0 {
            r.push(s);
        }
        assert(r@.map_values(|v: Vec<char>| v@) =~= listed_symbols(pre1));
    }
    assert(pairs@.subrange(0, pairs.len() as int) =~= pairs@);
    r
}

/// Whether `s` is one of the listed symbols.
fn listed_contains(listed: &Vec<Vec<char>>, s: &Vec<char>) -> (r: bool)
    ensures
        r == listed@.map_values(|v: Vec<char>| v@).contains(s@),
{
    let ghost view = listed@.map_values(|v: Vec<char>| v@);
    for i in 0..listed.len()
        invariant
            view == listed@.map_values(|v: Vec<char>| v@),
            forall|j: int| 0 <= j < i ==> view[j] != s@,
    {
        if chars_eq(&listed[i], s) {
            assert(view[i as int] == s@);
            return true;
        }
    }
    false
}

/// Chooses the symbol to trade: the preferred one when the spot
/// configuration lists it, else a well-known candidate, else any listed one.
pub fn pick_symbol(pairs: &[PairConfig], preferred: &str) -> (r: String)
    ensures
        r@ == pick_symbol_spec(listed_symbols(pairs@), preferred@),
{
    let listed = listed_symbol_chars(pairs);
    let ghost lv = listed_symbols(pairs@);
    let p = trimmed_chars(preferred);
    if p.len() > 0 && listed_contains(&listed, &p) {
        return string_from_chars(&p);
    }
    let names: [&str; 4] = ["BTC-USDT", "ETH-USDT", "SOL-USDT", "BNB-USDT"];
    let mut i: usize = 0;
    while i < 4
        invariant
            i <= 4,
            lv == listed@.map_values(|v: Vec<char>| v@),
            lv == listed_symbols(pairs@),
            names@ == seq!["BTC-USDT", "ETH-USDT", "SOL-USDT", "BNB-USDT"],
            first_listed_candidate(lv, 0) == first_listed_candidate(lv, i as nat),
            !(trim_seq(preferred@).len() > 0 && lv.contains(trim_seq(preferred@))),
        decreases 4 - i,
    {
        let c = chars_of(names[i]);
        assert(c@ == candidates()[i as int]);
        if listed_contains(&listed, &c) {
            assert(lv.contains(candidates()[i as int]));
            assert(first_listed_candidate(lv, i as nat) == Some(candidates()[i as int]));
            return string_from_chars(&c);
        }
        i = i + 1;
    }
    if listed.len() > 0 {
        assert(lv[0] == listed@[0]@);
        return string_from_chars(&listed[0]);
    }
    String::from_str("BTC-USDT")
}

/// The characters of the fields of a pair.
pub open spec fn pair_chars(p: PairConfig) -> (
    Seq<char>,
    Seq<char>,
    Seq<char>,
    Seq<char>,
    Seq<char>,
    Seq<char>,
    Seq<char>,
    u32,
) {
    (
        p.symbol@,
        p.base_asset@,
        p.quote_asset@,
        p.tick_size@,
        p.step_size@,
        p.min_notional_quote@,
        p.min_qty_base@,
        p.base_quantity_scale,
    )
}

/// The index of the first pair whose symbol is `symbol`, if any.
pub open spec fn pair_index(pairs: Seq<PairConfig>, symbol: Seq<char>, i: nat) -> Option<nat>
    decreases pairs.len() - i,
{
    if i >= pairs.len() {
        None
    } else if pairs[i as int].symbol@ == symbol {
        Some(i)
    } else {
        pair_index(pairs, symbol, i + 1)
    }
}

/// A field-by-field copy of a pair.
fn copy_pair(p: &PairConfig) -> (r: PairConfig)
    ensures
        r == *p,
{
    PairConfig {
        symbol: p.symbol.clone(),
        base_asset: p.base_asset.clone(),
        quote_asset: p.quote_asset.clone(),
        tick_size: p.tick_size.clone(),
        step_size: p.step_size.clone(),
        min_notional_quote: p.min_notional_quote.clone(),
        min_qty_base: p.min_qty_base.clone(),
        base_quantity_scale: p.base_quantity_scale,
    }
}

/// The first pair whose symbol is exactly `symbol`.
pub fn pair_for_symbol(pairs: &[PairConfig], symbol: &str) -> (r: Option<PairConfig>)
    ensures
        match pair_index(pairs@, symbol@, 0) {
            Some(i) => r == Some(pairs@[i as int]),
            None => r is None,
        },
{
    let s = chars_of(symbol);
    let mut i: usize = 0;
    while i < pairs.len()
        invariant
            i <= pairs.len(),
            s@ == symbol@,
            pair_index(pairs@, symbol@, 0) == pair_index(pairs@, symbol@, i as nat),
        decreases pairs.len() - i,
    {
        if chars_eq(&chars_of(pairs[i].symbol.as_str()), &s) {
            return Some(copy_pair(&pairs[i]));
        }
        i = i + 1;
    }
    None
}

/// The base quantity scale of a pair: its own when positive, else 8.
pub open spec fn quantity_scale_spec(pair: Option<PairConfig>) -> u32 {
    match pair {
        Some(p) => if p.base_quantity_scale > 0 {
            p.base_quantity_scale
        } else {
            8
        },
        None => 8,
    }
}

/// The base quantity scale of a pair, 8 when unknown.
pub fn quantity_scale_for_pair(pair: Option<&PairConfig>) -> (r: u32)
    ensures
        r == quantity_scale_spec(
            match pair {
                Some(p) => Some(*p),
                None => None,
            },
        ),
        r > 0,
{
    match pair {
        Some(p) => if p.base_quantity_scale > 0 {
            p.base_quantity_scale
        } else {
            8
        },
        None => 8,
    }
}

/// The piece of a `BASE-QUOTE` symbol before the first `-` (all of it when
/// there is none): `split('-').next()`.
pub open spec fn symbol_base_part(symbol: Seq<char>) -> Seq<char> {
    before_char(symbol, '-')
}

/// The piece of a symbol between the first and second `-`, when there is a
/// first `-`: `split('-').nth(1)`.
pub open spec fn symbol_quote_part(symbol: Seq<char>) -> Option<Seq<char>> {
    if symbol.contains('-') {
        let k = before_char(symbol, '-').len();
        Some(before_char(symbol.subrange(k as int + 1, symbol.len() as int), '-'))
    } else {
        None
    }
}

/// The quote asset named by a symbol, `USDT` when it names none.
pub open spec fn quote_from_symbol(symbol: Seq<char>) -> Seq<char> {
    match symbol_quote_part(symbol) {
        Some(q) => q,
        None => "USDT"@,
    }
}

/// The quote asset named by a symbol (`USDT` when it names none).
pub fn quote_part_of_symbol(symbol: &str) -> (r: Vec<char>)
    ensures
        r@ == quote_from_symbol(symbol@),
{
    let s = chars_of(symbol);
    let k = find_char(&s, '-');
    if k == s.len() {
        return chars_of("USDT");
    }
    let rest = sub_chars(&s, k + 1, s.len());
    let k2 = find_char(&rest, '-');
    sub_chars(&rest, 0, k2)
}

/// The base asset named by a symbol.
pub fn base_part_of_symbol(symbol: &str) -> (r: Vec<char>)
    ensures
        r@ == symbol_base_part(symbol@),
{
    let s = chars_of(symbol);
    let k = find_char(&s, '-');
    sub_chars(&s, 0, k)
}

/// The quote asset of a pair: the pair's own when set, else the one the
/// symbol names, else `USDT`.
pub open spec fn quote_asset_symbol_spec(pair: Option<PairConfig>, symbol: Seq<char>) -> Seq<char> {
    match pair {
        Some(p) => if p.quote_asset@.len() > 0 {
            p.quote_asset@
        } else {
            quote_from_symbol(symbol)
        },
        None => quote_from_symbol(symbol),
    }
}

/// The quote asset symbol of a pair or symbol.
pub fn quote_asset_symbol(pair: Option<&PairConfig>, symbol: &str) -> (r: String)
    ensures
        r@ == quote_asset_symbol_spec(
            match pair {
                Some(p) => Some(*p),
                None => None,
            },
            symbol@,
        ),
{
    if let Some(p) = pair {
        if p.quote_asset.as_str().unicode_len() > 0 {
            return p.quote_asset.clone();
        }
    }
    string_from_chars(&quote_part_of_symbol(symbol))
}

/// The asset names looked up for a pair's quote (or base) asset: the
/// pair's own name when it is set, then the name the symbol gives.
pub open spec fn lookup_names(own: Option<Seq<char>>, from_symbol: Seq<char>) -> (
    Option<Seq<char>>,
    Seq<char>,
) {
    (
        match own {
            Some(n) => if n.len() > 0 {
                Some(n)
            } else {
                None
            },
            None => None,
        },
        from_symbol,
    )
}

pub open spec fn quote_asset_raw(pair: Option<PairConfig>) -> Option<Seq<char>> {
    match pair {
        Some(p) => Some(p.quote_asset@),
        None => None,
    }
}

pub open spec fn base_asset_raw(pair: Option<PairConfig>) -> Option<Seq<char>> {
    match pair {
        Some(p) => Some(p.base_asset@),
        None => None,
    }
}

/// The characters of a pair of lookup names.
pub open spec fn names_chars(n: (Option<String>, String)) -> (Option<Seq<char>>, Seq<char>) {
    (
        match n.0 {
            Some(s) => Some(s@),
            None => None,
        },
        n.1@,
    )
}

/// The names `quote_asset_id` looks up, in order: the pair's quote asset
/// when set, then the quote asset the symbol names (`USDT` when none).
pub fn quote_asset_lookup_names(pair: Option<&PairConfig>, symbol: &str) -> (r: (
    Option<String>,
    String,
))
    ensures
        names_chars(r) == lookup_names(quote_asset_raw(pair_of(pair)), quote_from_symbol(symbol@)),
{
    let own = match pair {
        Some(p) => if p.quote_asset.as_str().unicode_len() > 0 {
            Some(p.quote_asset.clone())
        } else {
            None
        },
        None => None,
    };
    (own, string_from_chars(&quote_part_of_symbol(symbol)))
}

/// The names `base_asset_id` looks up, in order: the pair's base asset when
/// set, then the base asset the symbol names.
pub fn base_asset_lookup_names(pair: Option<&PairConfig>, symbol: &str) -> (r: (
    Option<String>,
    String,
))
    ensures
        names_chars(r) == lookup_names(base_asset_raw(pair_of(pair)), symbol_base_part(symbol@)),
{
    let own = match pair {
        Some(p) => if p.base_asset.as_str().unicode_len() > 0 {
            Some(p.base_asset.clone())
        } else {
            None
        },
        None => None,
    };
    (own, string_from_chars(&base_part_of_symbol(symbol)))
}

/// The id chosen from the two lookups: the id found under the pair's own
/// name when there is one, else the id found under the name the symbol gives.
pub open spec fn first_known_spec(own: Option<u32>, fallback: Option<u32>) -> Option<u32> {
    if own is Some {
        own
    } else {
        fallback
    }
}

/// Chooses between the id found under the pair's own asset name and the id
/// found under the name the symbol gives: the first when it is known.
pub fn first_known_id(own: Option<u32>, fallback: Option<u32>) -> (r: Option<u32>)
    ensures
        r == first_known_spec(own, fallback),
{
    match own {
        Some(id) => Some(id),
        None => fallback,
    }
}

/// The ledger id of the first of two asset names the catalogs know: the
/// first name when given and known, else the second. The catalogs are read
/// at call time, so what each lookup finds is not stated; the result is the
/// choice of `first_known_id` between the two lookups, where the first name
/// is looked up only when given and the second only when the first finds
/// nothing.
fn ledger_id_of_names(client: &Client, names: (Option<String>, String)) -> (r: Option<u32>)
    ensures
        exists|own: Option<u32>, fallback: Option<u32>|
            {
                &&& r == first_known_spec(own, fallback)
                &&& names.0 is None ==> own is None
            },
{
    let (own_name, fallback_name) = names;
    let own = match own_name {
        Some(name) => ledger_id_for_asset(client, name.as_str()),
        None => None,
    };
    let fallback = if own.is_some() {
        None
    } else {
        ledger_id_for_asset(client, fallback_name.as_str())
    };
    let r = first_known_id(own, fallback);
    assert(r == first_known_spec(own, fallback));
    r
}

/// The ledger id of the quote asset: the id found under the pair's quote
/// asset when it is set and known, else the id found under the quote asset
/// the symbol names (`USDT` when none), the names being those of
/// `quote_asset_lookup_names`. The catalogs are read at call time, so what
/// each lookup finds is not stated.
pub fn quote_asset_id(client: &Client, pair: Option<&PairConfig>, symbol: &str) -> (r: Option<u32>)
    ensures
        exists|own: Option<u32>, fallback: Option<u32>|
            {
                &&& r == first_known_spec(own, fallback)
                &&& lookup_names(quote_asset_raw(pair_of(pair)), quote_from_symbol(symbol@)).0 is None
                    ==> own is None
            },
{
    ledger_id_of_names(client, quote_asset_lookup_names(pair, symbol))
}

/// The ledger id of the base asset: the id found under the pair's base
/// asset when it is set and known, else the id found under the base asset
/// the symbol names, the names being those of `base_asset_lookup_names`. The
/// catalogs are read at call time, so what each lookup finds is not stated.
pub fn base_asset_id(client: &Client, pair: Option<&PairConfig>, symbol: &str) -> (r: Option<u32>)
    ensures
        exists|own: Option<u32>, fallback: Option<u32>|
            {
                &&& r == first_known_spec(own, fallback)
                &&& lookup_names(base_asset_raw(pair_of(pair)), symbol_base_part(symbol@)).0 is None
                    ==> own is None
            },
{
    ledger_id_of_names(client, base_asset_lookup_names(pair, symbol))
}

// ---------------------------------------------------------------------------
// Errors
// ---------------------------------------------------------------------------

/// Why a price or size could not be produced.
#[derive(Debug)]
pub enum MarketError {
    /// The side is neither `buy` nor `sell`.
    InvalidSide,
    /// The price is zero or negative.
    PriceNotPositive,
    /// The sell size rounds down to nothing.
    NoBaseBalance,
    /// The sell notional is below the pair's minimum.
    SellBelowMinNotional { min_notional: Dec, available_base: Dec },
    /// The buy budget is below the pair's minimum notional.
    BuyBelowMinNotional { available_quote: Dec, max_quote: Dec, min_notional: Dec },
    /// The buy size is below the pair's minimum quantity.
    BelowMinQty { qty: Dec, min_qty: Dec },
    /// The quantity text is not a decimal (the parser's message).
    InvalidDecimal { detail: String },
    /// The quantity has more fraction digits than the scale allows.
    NotScaledCleanly { qty_text: String, scale: u32 },
    /// The scaled quantity does not fit in `i64`.
    ScaledOutOfRange,
    /// The price text is not a valid price (the SDK's message).
    InvalidPrice { detail: String },
    /// No post-only buy price could be derived for the symbol.
    NoPostOnlyPrice { symbol: String },
    /// A decimal operation overflowed.
    ArithmeticOverflow,
}

/// `v` followed by the characters of `s`.
fn push_str(v: &mut Vec<char>, s: &str)
    ensures
        final(v)@ == old(v)@ + s@,
{
    let c = chars_of(s);
    let r = concat_chars(v, &c);
    *v = r;
}

/// `v` followed by `w`.
fn push_chars(v: &mut Vec<char>, w: &Vec<char>)
    ensures
        final(v)@ == old(v)@ + w@,
{
    let r = concat_chars(v, w);
    *v = r;
}

/// The message for each error, as the examples print it.
pub open spec fn market_error_text(e: MarketError) -> Seq<char> {
    match e {
        MarketError::InvalidSide => "side must be 'buy' or 'sell'"@,
        MarketError::PriceNotPositive => "price must be positive"@,
        MarketError::NoBaseBalance => "no base trading balance is available to sell"@,
        MarketError::SellBelowMinNotional { min_notional, available_base } => "sell size is below min notional "@
            + dec_text(min_notional) + "; available_base="@ + dec_text(available_base),
        MarketError::BuyBelowMinNotional { available_quote, max_quote, min_notional } => "available quote "@
            + dec_text(available_quote) + " (cap "@ + dec_text(max_quote) + ") is below min notional "@
            + dec_text(min_notional),
        MarketError::BelowMinQty { qty, min_qty } => "sized qty "@ + dec_text(qty) + " is below min qty "@
            + dec_text(min_qty),
        MarketError::InvalidDecimal { detail } => detail@,
        MarketError::NotScaledCleanly { qty_text, scale } => "qty "@ + str_debug_text(qty_text@)
            + " does not scale cleanly to "@ + nat_digits(scale as nat) + " decimals"@,
        MarketError::ScaledOutOfRange => "scaled qty out of i64 range"@,
        MarketError::InvalidPrice { detail } => detail@,
        MarketError::NoPostOnlyPrice { symbol } => "could not resolve a post-only buy limit price for "@
            + symbol@,
        MarketError::ArithmeticOverflow => "decimal arithmetic overflow"@,
    }
}

/// All decimals an error carries are valid.
pub open spec fn market_error_wf(e: MarketError) -> bool {
    match e {
        MarketError::SellBelowMinNotional { min_notional, available_base } => min_notional.wf()
            && available_base.wf(),
        MarketError::BuyBelowMinNotional { available_quote, max_quote, min_notional } =>
            available_quote.wf() && max_quote.wf() && min_notional.wf(),
        MarketError::BelowMinQty { qty, min_qty } => qty.wf() && min_qty.wf(),
        _ => true,
    }
}

impl MarketError {
    /// The message for the error.
    pub fn message(&self) -> (r: String)
        requires
            market_error_wf(*self),
        ensures
            r@ == market_error_text(*self),
    {
        let mut v: Vec<char> = Vec::new();
        match self {
            MarketError::InvalidSide => push_str(&mut v, "side must be 'buy' or 'sell'"),
            MarketError::PriceNotPositive => push_str(&mut v, "price must be positive"),
            MarketError::NoBaseBalance => push_str(
                &mut v,
                "no base trading balance is available to sell",
            ),
            MarketError::SellBelowMinNotional { min_notional, available_base } => {
                push_str(&mut v, "sell size is below min notional ");
                push_chars(&mut v, &min_notional.text_chars());
                push_str(&mut v, "; available_base=");
                push_chars(&mut v, &available_base.text_chars());
            },
            MarketError::BuyBelowMinNotional { available_quote, max_quote, min_notional } => {
                push_str(&mut v, "available quote ");
                push_chars(&mut v, &available_quote.text_chars());
                push_str(&mut v, " (cap ");
                push_chars(&mut v, &max_quote.text_chars());
                push_str(&mut v, ") is below min notional ");
                push_chars(&mut v, &min_notional.text_chars());
            },
            MarketError::BelowMinQty { qty, min_qty } => {
                push_str(&mut v, "sized qty ");
                push_chars(&mut v, &qty.text_chars());
                push_str(&mut v, " is below min qty ");
                push_chars(&mut v, &min_qty.text_chars());
            },
            MarketError::InvalidDecimal { detail } => push_str(&mut v, detail.as_str()),
            MarketError::NotScaledCleanly { qty_text, scale } => {
                push_str(&mut v, "qty ");
                let d = debug_text(qty_text.as_str());
                push_str(&mut v, d.as_str());
                push_str(&mut v, " does not scale cleanly to ");
                push_chars(&mut v, &u128_digits(*scale as u128));
                push_str(&mut v, " decimals");
            },
            MarketError::ScaledOutOfRange => push_str(&mut v, "scaled qty out of i64 range"),
            MarketError::InvalidPrice { detail } => push_str(&mut v, detail.as_str()),
            MarketError::NoPostOnlyPrice { symbol } => {
                push_str(&mut v, "could not resolve a post-only buy limit price for ");
                push_str(&mut v, symbol.as_str());
            },
            MarketError::ArithmeticOverflow => push_str(&mut v, "decimal arithmetic overflow"),
        }
        assert(v@ =~= market_error_text(*self));
        string_from_chars(&v)
    }
}

/// The characters of a text result.
pub open spec fn text_result(r: Result<String, MarketError>) -> Result<Seq<char>, MarketError> {
    match r {
        Ok(s) => Ok(s@),
        Err(e) => Err(e),
    }
}

// ---------------------------------------------------------------------------
// Decimal fields of a pair, formatting, alignment
// ---------------------------------------------------------------------------

/// The pair behind an optional reference.
pub open spec fn pair_of(pair: Option<&PairConfig>) -> Option<PairConfig> {
    match pair {
        Some(p) => Some(*p),
        None => None,
    }
}

/// A decimal field of a pair: its trimmed text parsed as a decimal; the
/// default when there is no pair, the text is blank, or it does not parse.
pub open spec fn field_decimal(raw: Option<Seq<char>>, default: Dec) -> Dec {
    match raw {
        Some(v) => if trim_seq(v).len() == 0 {
            default
        } else {
            match decimal_from_str(trim_seq(v)) {
                Some(d) => d,
                None => default,
            }
        },
        None => default,
    }
}

pub open spec fn tick_raw(p: Option<PairConfig>) -> Option<Seq<char>> {
    match p {
        Some(p) => Some(p.tick_size@),
        None => None,
    }
}

pub open spec fn step_raw(p: Option<PairConfig>) -> Option<Seq<char>> {
    match p {
        Some(p) => Some(p.step_size@),
        None => None,
    }
}

pub open spec fn min_notional_raw(p: Option<PairConfig>) -> Option<Seq<char>> {
    match p {
        Some(p) => Some(p.min_notional_quote@),
        None => None,
    }
}

pub open spec fn min_qty_raw(p: Option<PairConfig>) -> Option<Seq<char>> {
    match p {
        Some(p) => Some(p.min_qty_base@),
        None => None,
    }
}

/// The price step of a pair, `0.01` when unknown.
pub open spec fn tick_size_spec(p: Option<PairConfig>) -> Dec {
    field_decimal(tick_raw(p), dec_new(1, 2))
}

/// The quantity step of a pair, `0.001` when unknown.
pub open spec fn step_spec(p: Option<PairConfig>) -> Dec {
    field_decimal(step_raw(p), dec_new(1, 3))
}

/// The minimum quote notional of a pair, `10` when unknown.
pub open spec fn min_notional_spec(p: Option<PairConfig>) -> Dec {
    field_decimal(min_notional_raw(p), dec_int(10))
}

/// The minimum base quantity of a pair, its step when unknown.
pub open spec fn min_qty_spec(p: Option<PairConfig>) -> Dec {
    field_decimal(min_qty_raw(p), step_spec(p))
}

/// A decimal field of a pair (see `field_decimal`).
fn field_decimal_exec(raw: Option<&String>, default: Dec) -> (r: Dec)
    requires
        default.wf(),
    ensures
        r == field_decimal(
            match raw {
                Some(s) => Some(s@),
                None => None,
            },
            default,
        ),
        r.wf(),
{
    match raw {
        Some(s) => {
            let t = trimmed_chars(s.as_str());
            if t.len() == 0 {
                default
            } else {
                match Dec::parse(string_from_chars(&t).as_str()) {
                    Some(d) => d,
                    None => default,
                }
            }
        },
        None => default,
    }
}

/// The price step of a pair, `0.01` when unknown.
pub fn tick_size(pair: Option<&PairConfig>) -> (r: Dec)
    ensures
        r == tick_size_spec(pair_of(pair)),
        r.wf(),
{
    let raw = match pair {
        Some(p) => Some(&p.tick_size),
        None => None,
    };
    field_decimal_exec(raw, Dec::new(1, 2))
}

fn step_size(pair: Option<&PairConfig>) -> (r: Dec)
    ensures
        r == step_spec(pair_of(pair)),
        r.wf(),
{
    let raw = match pair {
        Some(p) => Some(&p.step_size),
        None => None,
    };
    field_decimal_exec(raw, Dec::new(1, 3))
}

fn min_notional(pair: Option<&PairConfig>) -> (r: Dec)
    ensures
        r == min_notional_spec(pair_of(pair)),
        r.wf(),
{
    let raw = match pair {
        Some(p) => Some(&p.min_notional_quote),
        None => None,
    };
    field_decimal_exec(raw, Dec::from_i64(10))
}

fn min_qty(pair: Option<&PairConfig>) -> (r: Dec)
    ensures
        r == min_qty_spec(pair_of(pair)),
        r.wf(),
{
    let raw = match pair {
        Some(p) => Some(&p.min_qty_base),
        None => None,
    };
    field_decimal_exec(raw, step_size(pair))
}

/// What `format_decimal` writes: the normalised decimal, without trailing
/// fraction zeros or a trailing point.
pub open spec fn format_decimal_spec(v: Dec) -> Seq<char> {
    let t = dec_text(dec_normalize(v));
    if t.contains('.') {
        trim_end_char(trim_end_char(t, '0'), '.')
    } else if t.len() == 0 {
        "0"@
    } else {
        t
    }
}

/// Writes a decimal without trailing fraction zeros.
pub fn format_decimal(value: Dec) -> (r: String)
    requires
        value.wf(),
    ensures
        r@ == format_decimal_spec(value),
{
    let text = value.normalize().text_chars();
    let k = find_char(&text, '.');
    if k < text.len() {
        let t = trim_end_char_exec(&trim_end_char_exec(&text, '0'), '.');
        string_from_chars(&t)
    } else if text.len() == 0 {
        String::from_str("0")
    } else {
        string_from_chars(&text)
    }
}

/// A value aligned to a positive step: up (`ceil`) or down (`trunc`) to a
/// whole number of steps; unchanged when the step is not positive.
pub open spec fn align_spec(value: Dec, step: Dec, round_up: bool) -> Option<Dec> {
    if !dec_lt(dec_zero(), step) {
        Some(value)
    } else {
        match decimal_checked_div(value, step) {
            Some(s) => decimal_checked_mul(
                if round_up {
                    dec_ceil(s)
                } else {
                    dec_trunc(s)
                },
                step,
            ),
            None => None,
        }
    }
}

/// Aligns a value to a whole number of steps.
fn align_to_step(value: Dec, step: Dec, round_up: bool) -> (r: Option<Dec>)
    requires
        value.wf(),
        step.wf(),
    ensures
        r == align_spec(value, step, round_up),
        r matches Some(d) ==> d.wf(),
{
    if !Dec::zero().lt(&step) {
        return Some(value);
    }
    let steps = value.checked_div(&step)?;
    let aligned = if round_up {
        steps.ceil()
    } else {
        steps.trunc()
    };
    aligned.checked_mul(&step)
}

/// The limit price of the teaching bot: 0.1% through the last price, aligned
/// to the pair's tick (up for a buy, down for a sell).
pub open spec fn marketable_spec(side: Seq<char>, last_price: Dec, pair: Option<PairConfig>) -> Result<
    Seq<char>,
    MarketError,
> {
    let step = tick_size_spec(pair);
    if side == "buy"@ || side == "sell"@ {
        let buy = side == "buy"@;
        let factor = if buy {
            dec_new(1001, 3)
        } else {
            dec_new(999, 3)
        };
        match decimal_checked_mul(last_price, factor) {
            Some(t) => match align_spec(t, step, buy) {
                Some(a) => Ok(format_decimal_spec(a)),
                None => Err(MarketError::ArithmeticOverflow),
            },
            None => Err(MarketError::ArithmeticOverflow),
        }
    } else {
        Err(MarketError::InvalidSide)
    }
}

/// A slightly aggressive limit price for a teaching bot (not post-only).
pub fn marketable_limit_price(side: &str, last_price: Dec, pair: Option<&PairConfig>) -> (r: Result<
    String,
    MarketError,
>)
    requires
        last_price.wf(),
    ensures
        text_result(r) == marketable_spec(side@, last_price, pair_of(pair)),
{
    let step = tick_size(pair);
    let s = chars_of(side);
    let buy = chars_eq(&s, &chars_of("buy"));
    let sell = chars_eq(&s, &chars_of("sell"));
    if !buy && !sell {
        return Err(MarketError::InvalidSide);
    }
    let factor = if buy {
        Dec::new(1001, 3)
    } else {
        Dec::new(999, 3)
    };
    let target = match last_price.checked_mul(&factor) {
        Some(t) => t,
        None => {
            return Err(MarketError::ArithmeticOverflow);
        },
    };
    match align_to_step(target, step, buy) {
        Some(a) => Ok(format_decimal(a)),
        None => Err(MarketError::ArithmeticOverflow),
    }
}

// ---------------------------------------------------------------------------
// Order sizing
// ---------------------------------------------------------------------------

/// `q` rounded down to a whole number of a positive step; unchanged when the
/// step is not positive.
pub open spec fn floor_to_step(q: Dec, step: Dec) -> Option<Dec> {
    if dec_lt(dec_zero(), step) {
        match decimal_checked_div(q, step) {
            Some(x) => decimal_checked_mul(dec_trunc(x), step),
            None => None,
        }
    } else {
        Some(q)
    }
}

fn floor_to_step_exec(q: Dec, step: Dec) -> (r: Option<Dec>)
    requires
        q.wf(),
        step.wf(),
    ensures
        r == floor_to_step(q, step),
        r matches Some(d) ==> d.wf(),
{
    if Dec::zero().lt(&step) {
        let x = q.checked_div(&step)?;
        x.trunc().checked_mul(&step)
    } else {
        Some(q)
    }
}

/// The sell size: the smaller of the available base and `max_quote / price`,
/// rounded down to the step; refused when it is not positive, when it is
/// below the minimum quantity, or when its notional is below the minimum.
pub open spec fn sell_qty_spec(
    available_base: Dec,
    max_quote: Dec,
    price: Dec,
    pair: Option<PairConfig>,
) -> Result<Seq<char>, MarketError> {
    if !dec_lt(dec_zero(), price) {
        Err(MarketError::PriceNotPositive)
    } else {
        let step = step_spec(pair);
        let min_notional = min_notional_spec(pair);
        match decimal_checked_div(max_quote, price) {
            None => Err(MarketError::ArithmeticOverflow),
            Some(cap) => match floor_to_step(dec_min(available_base, cap), step) {
                None => Err(MarketError::ArithmeticOverflow),
                Some(q) => if !dec_lt(dec_zero(), q) {
                    Err(MarketError::NoBaseBalance)
                } else if dec_lt(q, min_qty_spec(pair)) {
                    Err(MarketError::BelowMinQty { qty: q, min_qty: min_qty_spec(pair) })
                } else {
                    match decimal_checked_mul(q, price) {
                        None => Err(MarketError::ArithmeticOverflow),
                        Some(n) => if dec_lt(n, min_notional) {
                            Err(MarketError::SellBelowMinNotional { min_notional, available_base })
                        } else {
                            Ok(dec_text(dec_normalize(q)))
                        },
                    }
                },
            },
        }
    }
}

/// Sizes a sell so its quote notional is at most `max_quote`, respecting the
/// step, the minimum quantity and the minimum notional.
pub fn sell_qty_for_quote_cap(
    available_base: Dec,
    max_quote: Dec,
    price: Dec,
    pair: Option<&PairConfig>,
) -> (r: Result<String, MarketError>)
    requires
        available_base.wf(),
        max_quote.wf(),
        price.wf(),
    ensures
        text_result(r) == sell_qty_spec(available_base, max_quote, price, pair_of(pair)),
        r matches Err(e) ==> market_error_wf(e),
{
    if !Dec::zero().lt(&price) {
        return Err(MarketError::PriceNotPositive);
    }
    let step = step_size(pair);
    let min_qty = min_qty(pair);
    let min_notional = min_notional(pair);
    let cap = match max_quote.checked_div(&price) {
        Some(c) => c,
        None => {
            return Err(MarketError::ArithmeticOverflow);
        },
    };
    let qty = match floor_to_step_exec(available_base.min(&cap), step) {
        Some(q) => q,
        None => {
            return Err(MarketError::ArithmeticOverflow);
        },
    };
    if !Dec::zero().lt(&qty) {
        return Err(MarketError::NoBaseBalance);
    }
    if qty.lt(&min_qty) {
        return Err(MarketError::BelowMinQty { qty, min_qty });
    }
    let notional = match qty.checked_mul(&price) {
        Some(n) => n,
        None => {
            return Err(MarketError::ArithmeticOverflow);
        },
    };
    if notional.lt(&min_notional) {
        return Err(MarketError::SellBelowMinNotional { min_notional, available_base });
    }
    Ok(qty.normalize().to_text())
}

/// The buy size: the budget (the smaller of the available quote and
/// `max_quote`) divided by the price, rounded down to the step; refused when
/// the budget is below the minimum notional or the size below the minimum
/// quantity.
pub open spec fn buy_qty_spec(
    available_quote: Dec,
    max_quote: Dec,
    price: Dec,
    pair: Option<PairConfig>,
) -> Result<Seq<char>, MarketError> {
    if !dec_lt(dec_zero(), price) {
        Err(MarketError::PriceNotPositive)
    } else {
        let step = step_spec(pair);
        let min_qty = min_qty_spec(pair);
        let min_notional = min_notional_spec(pair);
        let budget = dec_min(available_quote, max_quote);
        if dec_lt(budget, min_notional) {
            Err(MarketError::BuyBelowMinNotional { available_quote, max_quote, min_notional })
        } else {
            match decimal_checked_div(budget, price) {
                None => Err(MarketError::ArithmeticOverflow),
                Some(q0) => match floor_to_step(q0, step) {
                    None => Err(MarketError::ArithmeticOverflow),
                    Some(q) => if dec_lt(q, min_qty) {
                        Err(MarketError::BelowMinQty { qty: q, min_qty })
                    } else {
                        Ok(dec_text(dec_normalize(q)))
                    },
                },
            }
        }
    }
}

/// Sizes a buy so its quote notional is at most `max_quote`, respecting the
/// step, the minimum quantity and the minimum notional.
pub fn buy_qty_for_quote_cap(
    available_quote: Dec,
    max_quote: Dec,
    price: Dec,
    pair: Option<&PairConfig>,
) -> (r: Result<String, MarketError>)
    requires
        available_quote.wf(),
        max_quote.wf(),
        price.wf(),
    ensures
        text_result(r) == buy_qty_spec(available_quote, max_quote, price, pair_of(pair)),
        r matches Err(e) ==> market_error_wf(e),
{
    if !Dec::zero().lt(&price) {
        return Err(MarketError::PriceNotPositive);
    }
    let step = step_size(pair);
    let min_qty = min_qty(pair);
    let min_notional = min_notional(pair);
    let budget = available_quote.min(&max_quote);
    if budget.lt(&min_notional) {
        return Err(MarketError::BuyBelowMinNotional { available_quote, max_quote, min_notional });
    }
    let q0 = match budget.checked_div(&price) {
        Some(q) => q,
        None => {
            return Err(MarketError::ArithmeticOverflow);
        },
    };
    let qty = match floor_to_step_exec(q0, step) {
        Some(q) => q,
        None => {
            return Err(MarketError::ArithmeticOverflow);
        },
    };
    if qty.lt(&min_qty) {
        return Err(MarketError::BelowMinQty { qty, min_qty });
    }
    Ok(qty.normalize().to_text())
}

// ---------------------------------------------------------------------------
// Ledger balances
// ---------------------------------------------------------------------------

/// A ledger amount in units of `10^-18` written as a decimal: at most 18
/// digits become `0.` and the digits padded to 18; more digits get a `.`
/// before their last 18.
pub open spec fn ledger_text(n: nat) -> Seq<char> {
    let s = nat_digits(n);
    if s.len() <= 18 {
        "0."@ + zeros((18 - s.len()) as nat) + s
    } else {
        s.subrange(0, s.len() - 18) + "."@ + s.subrange(s.len() - 18, s.len() as int)
    }
}

/// A ledger amount string as a decimal: the unsigned integer it holds scaled
/// by `10^-18`; zero when it is not an unsigned integer or the decimal does
/// not parse.
pub open spec fn ledger_amount(raw: Seq<char>) -> Dec {
    match parse_unsigned(raw, u128::MAX as nat) {
        Some(n) => match decimal_from_str(ledger_text(n)) {
            Some(d) => d,
            None => dec_zero(),
        },
        None => dec_zero(),
    }
}

/// Converts a ledger amount string (units of `10^-18`) to a decimal.
fn ledger_amount_to_decimal(raw: &str) -> (r: Dec)
    ensures
        r == ledger_amount(raw@),
        r.wf(),
{
    let n = match parse_u128_chars(&chars_of(raw)) {
        Some(n) => n,
        None => {
            return Dec::zero();
        },
    };
    let s = u128_digits(n);
    let mut text: Vec<char> = Vec::new();
    if s.len() <= 18 {
        push_str(&mut text, "0.");
        let mut k = s.len();
        let ghost base = text@;
        while k < 18
            invariant
                s.len() <= k <= 18,
                text@ == base + zeros((k - s.len()) as nat),
            decreases 18 - k,
        {
            text.push('0');
            k = k + 1;
            assert(text@ =~= base + zeros((k - s.len()) as nat));
        }
        push_chars(&mut text, &s);
    } else {
        let split = s.len() - 18;
        push_chars(&mut text, &sub_chars(&s, 0, split));
        push_str(&mut text, ".");
        push_chars(&mut text, &sub_chars(&s, split, s.len()));
    }
    assert(text@ =~= ledger_text(n as nat));
    let t = string_from_chars(&text);
    match Dec::parse(t.as_str()) {
        Some(d) => d,
        None => Dec::zero(),
    }
}

/// The balance fields the helpers read: the asset and its spendable
/// (available) trading amount, net of reservations.
#[derive(Debug)]
pub struct AssetBalance {
    pub asset_id: u32,
    pub available: String,
}

/// The available amount of the first balance of `asset_id`.
pub open spec fn balance_available(balances: Seq<AssetBalance>, asset_id: u32) -> Option<Seq<char>>
    decreases balances.len(),
{
    if balances.len() == 0 {
        None
    } else if balances[0].asset_id == asset_id {
        Some(balances[0].available@)
    } else {
        balance_available(balances.drop_first(), asset_id)
    }
}

/// The spendable trading balance of an asset: the available amount of the
/// first balance of that asset as a decimal (not the gross trading amount,
/// which includes reservations), zero when there is none.
pub open spec fn available_spec(balances: Seq<AssetBalance>, asset_id: u32) -> Dec {
    match balance_available(balances, asset_id) {
        Some(t) => ledger_amount(t),
        None => dec_zero(),
    }
}

/// The spendable (available) trading balance of an asset, zero when there is
/// none.
pub fn available_trading_balance(balances: &[AssetBalance], asset_id: u32) -> (r: Dec)
    ensures
        r == available_spec(balances@, asset_id),
        r.wf(),
{
    let mut i: usize = 0;
    assert(balances@.subrange(0, balances.len() as int) =~= balances@);
    while i < balances.len()
        invariant
            i <= balances.len(),
            balance_available(balances@, asset_id) == balance_available(
                balances@.subrange(i as int, balances.len() as int),
                asset_id,
            ),
        decreases balances.len() - i,
    {
        let ghost rest = balances@.subrange(i as int, balances.len() as int);
        assert(rest.drop_first() =~= balances@.subrange(i + 1, balances.len() as int));
        assert(rest[0] == balances@[i as int]);
        if balances[i].asset_id == asset_id {
            return ledger_amount_to_decimal(balances[i].available.as_str());
        }
        i = i + 1;
    }
    Dec::zero()
}

// ---------------------------------------------------------------------------
// Post-only buy price
// ---------------------------------------------------------------------------

/// One level of an order book: its price in ticks, when present.
#[derive(Clone, Copy, Debug)]
pub struct OrderbookLevel {
    pub price_ticks: Option<i64>,
}

/// The two sides of an order book, best level first.
#[derive(Debug)]
pub struct OrderbookData {
    pub bids: Vec<OrderbookLevel>,
    pub asks: Vec<OrderbookLevel>,
}

impl OrderbookData {
    /// Prices are never negative.
    pub open spec fn wf(self) -> bool {
        &&& forall|i: int|
            0 <= i < self.bids@.len() ==> match (#[trigger] self.bids@[i]).price_ticks {
                Some(t) => t >= 0,
                None => true,
            }
        &&& forall|i: int|
            0 <= i < self.asks@.len() ==> match (#[trigger] self.asks@[i]).price_ticks {
                Some(t) => t >= 0,
                None => true,
            }
    }
}

/// The post-only buy target in ticks: one tick under the best bid, at least
/// one tick, at most one tick under a positive best ask; none when that is
/// less than one tick.
pub open spec fn post_only_target(bid: int, ask: Option<int>, tick: int) -> Option<int> {
    let t0 = if bid - tick < tick {
        tick
    } else {
        bid - tick
    };
    let t1 = match ask {
        Some(a) => if a > 0 && t0 > a - tick {
            a - tick
        } else {
            t0
        },
        None => t0,
    };
    if t1 < tick {
        None
    } else {
        Some(t1)
    }
}

/// The price of the best ask, when there is one with a price.
pub open spec fn best_ask(book: OrderbookData) -> Option<int> {
    if book.asks@.len() > 0 {
        match book.asks@[0].price_ticks {
            Some(a) => Some(a as int),
            None => None,
        }
    } else {
        None
    }
}

/// The post-only buy price for a book and tick size text.
pub open spec fn post_only_spec(book: OrderbookData, tick_size: Seq<char>) -> Option<Seq<char>> {
    match price_ticks_of(tick_size) {
        None => None,
        Some(tick) => if tick <= 0 || book.bids@.len() == 0 {
            None
        } else {
            match book.bids@[0].price_ticks {
                None => None,
                Some(bid) => match post_only_target(bid as int, best_ask(book), tick as int) {
                    Some(t) => Some(scaled_text(t, 6)),
                    None => None,
                },
            }
        },
    }
}

/// A buy price one tick under the best bid that stays below the best ask.
pub fn post_only_buy_price_from_book(book: &OrderbookData, tick_size: &str) -> (r: Option<String>)
    requires
        book.wf(),
    ensures
        match r {
            Some(s) => post_only_spec(*book, tick_size@) == Some(s@),
            None => post_only_spec(*book, tick_size@) is None,
        },
{
    let tick = match parse_price_ticks(tick_size, "tick_size") {
        Ok(t) => t,
        Err(_) => {
            return None;
        },
    };
    if tick == 0 || book.bids.len() == 0 {
        return None;
    }
    let bid = match book.bids[0].price_ticks {
        Some(b) => b,
        None => {
            return None;
        },
    };
    assert(bid >= 0);
    let mut target: i64 = bid - tick;
    if target < tick {
        target = tick;
    }
    if book.asks.len() > 0 {
        if let Some(ask) = book.asks[0].price_ticks {
            if ask > 0 {
                let max_post_only = ask - tick;
                if target > max_post_only {
                    target = max_post_only;
                }
            }
        }
    }
    if target < tick {
        return None;
    }
    Some(format_price_ticks(target))
}

/// The post-only buy target respects the book: at least one tick, not above
/// one tick under the best bid (unless that is below one tick), and at least
/// one tick under a positive best ask.
pub proof fn lemma_post_only_target_bounds(bid: int, ask: Option<int>, tick: int)
    requires
        tick > 0,
    ensures
        post_only_target(bid, ask, tick) matches Some(t) ==> {
            &&& t >= tick
            &&& t <= if bid - tick < tick {
                tick
            } else {
                bid - tick
            }
            &&& match ask {
                Some(a) => a > 0 ==> t <= a - tick && t < a,
                None => true,
            }
        },
{
}

/// The tick size text used for a post-only price: the pair's trimmed tick
/// size, `0.01` when there is no pair or it is blank.
pub open spec fn post_only_tick_spec(pair: Option<PairConfig>) -> Seq<char> {
    match pair {
        Some(p) => if trim_seq(p.tick_size@).len() == 0 {
            "0.01"@
        } else {
            trim_seq(p.tick_size@)
        },
        None => "0.01"@,
    }
}

/// The tick size text used for a post-only price (part of
/// `resolve_post_only_buy_limit_price`).
pub fn post_only_tick_size(pair: Option<&PairConfig>) -> (r: String)
    ensures
        r@ == post_only_tick_spec(pair_of(pair)),
{
    match pair {
        Some(p) => {
            let t = trimmed_chars(p.tick_size.as_str());
            if t.len() == 0 {
                String::from_str("0.01")
            } else {
                string_from_chars(&t)
            }
        },
        None => String::from_str("0.01"),
    }
}

/// The error when no post-only buy price can be found for `symbol`.
pub fn no_post_only_price(symbol: &str) -> (r: MarketError)
    ensures
        r matches MarketError::NoPostOnlyPrice { symbol: s } && s@ == symbol@,
{
    MarketError::NoPostOnlyPrice { symbol: String::from_str(symbol) }
}

/// What `resolve_post_only_buy_limit_price` returns for the order book it
/// fetched (`None` when fetching failed): the post-only buy price from the
/// book and the pair's tick size, if any (else it fails, naming the symbol).
pub open spec fn post_only_outcome_spec(
    book: Option<OrderbookData>,
    pair: Option<PairConfig>,
) -> Option<Seq<char>> {
    match book {
        Some(b) => post_only_spec(b, post_only_tick_spec(pair)),
        None => None,
    }
}

/// The decision of `resolve_post_only_buy_limit_price` after its one
/// order-book fetch: the post-only buy price when the book gives one, else
/// the `NoPostOnlyPrice` error for the symbol.
pub fn post_only_price_outcome(book: Option<&OrderbookData>, pair: Option<&PairConfig>, symbol: &str) -> (r:
    Result<String, MarketError>)
    requires
        book matches Some(b) ==> b.wf(),
    ensures
        match post_only_outcome_spec(
            match book {
                Some(b) => Some(*b),
                None => None,
            },
            pair_of(pair),
        ) {
            Some(s) => r matches Ok(x) && x@ == s,
            None => r matches Err(MarketError::NoPostOnlyPrice { symbol: y }) && y@ == symbol@,
        },
{
    if let Some(b) = book {
        let tick = post_only_tick_size(pair);
        if let Some(price) = post_only_buy_price_from_book(b, tick.as_str()) {
            return Ok(price);
        }
    }
    Err(no_post_only_price(symbol))
}

// ---------------------------------------------------------------------------
// Wire units
// ---------------------------------------------------------------------------

proof fn lemma_pow10_le_19(n: nat)
    requires
        n <= 19,
    ensures
        pow10(n) <= 10_000_000_000_000_000_000,
    decreases 19 - n,
{
    if n < 19 {
        lemma_pow10_le_19(n + 1);
    } else {
        reveal_with_fuel(pow10, 20);
    }
}

/// `10^n` in `u64`.
fn pow10_u64(n: u32) -> (r: u64)
    requires
        n <= 19,
    ensures
        r as nat == pow10(n as nat),
{
    let mut r: u64 = 1;
    let mut i: u32 = 0;
    while i < n
        invariant
            i <= n <= 19,
            r as nat == pow10(i as nat),
        decreases n - i,
    {
        proof {
            lemma_pow10_le_19((i + 1) as nat);
        }
        r = r * 10;
        i = i + 1;
    }
    r
}

/// Converts a human decimal quantity into wire units scaled by `10^scale`:
/// refused when the text is not a decimal, when the quantity has more
/// fraction digits than the scale, or when it does not fit in `i64`.
pub fn qty_to_scaled(qty_decimal: &str, scale: u32) -> (r: Result<i64, MarketError>)
    requires
        scale <= 19,
    ensures
        match decimal_from_str(trim_seq(qty_decimal@)) {
            None => r matches Err(MarketError::InvalidDecimal { .. }),
            Some(q) => match decimal_checked_mul(q, dec_int(pow10(scale as nat) as int)) {
                None => r matches Err(MarketError::ArithmeticOverflow),
                Some(s) => if !dec_eq(s, dec_trunc(s)) {
                    r matches Err(MarketError::NotScaledCleanly { qty_text, scale: sc }) && qty_text@
                        == qty_decimal@ && sc == scale
                } else {
                    match dec_to_i64(s) {
                        Some(v) => r matches Ok(x) && x == v,
                        None => r matches Err(MarketError::ScaledOutOfRange),
                    }
                },
            },
        },
{
    let text = string_from_chars(&trimmed_chars(qty_decimal));
    let qty = match Dec::parse_with_error(text.as_str()) {
        Ok(q) => q,
        Err(detail) => {
            return Err(MarketError::InvalidDecimal { detail });
        },
    };
    let mult = Dec::from_u64(pow10_u64(scale));
    let scaled = match qty.checked_mul(&mult) {
        Some(s) => s,
        None => {
            return Err(MarketError::ArithmeticOverflow);
        },
    };
    if !scaled.value_eq(&scaled.trunc()) {
        return Err(MarketError::NotScaledCleanly { qty_text: String::from_str(qty_decimal), scale });
    }
    match scaled.to_i64() {
        Some(v) => Ok(v),
        None => Err(MarketError::ScaledOutOfRange),
    }
}

/// Converts a human decimal price into protocol price ticks (`10^6`).
pub fn price_to_ticks(price_decimal: &str) -> (r: Result<i64, MarketError>)
    ensures
        match price_ticks_of(price_decimal@) {
            Some(v) => r matches Ok(x) && x == v,
            None => r matches Err(MarketError::InvalidPrice { .. }),
        },
{
    match parse_price_ticks(price_decimal, "price") {
        Ok(v) => Ok(v),
        Err(detail) => Err(MarketError::InvalidPrice { detail }),
    }
}

// ---------------------------------------------------------------------------
// Laws
// ---------------------------------------------------------------------------

proof fn lemma_first_listed_candidate_is_listed(listed: Seq<Seq<char>>, i: nat)
    ensures
        first_listed_candidate(listed, i) matches Some(c) ==> listed.contains(c),
    decreases 4 - i,
{
    if i < 4 {
        lemma_first_listed_candidate_is_listed(listed, i + 1);
    }
}

/// The chosen symbol is one the spot configuration lists whenever it lists
/// any; otherwise it is `BTC-USDT`.
pub proof fn lemma_pick_symbol_is_listed(listed: Seq<Seq<char>>, preferred: Seq<char>)
    ensures
        listed.len() > 0 ==> listed.contains(pick_symbol_spec(listed, preferred)),
        listed.len() == 0 ==> pick_symbol_spec(listed, preferred) == "BTC-USDT"@,
{
    lemma_first_listed_candidate_is_listed(listed, 0);
    if listed.len() > 0 {
        assert(listed[0] == listed[0]);
    }
}

/// A sell size that is returned is a positive quantity, not below the pair's
/// minimum quantity, whose notional at `price` is at least the pair's minimum
/// notional; the text is that quantity normalised.
pub proof fn lemma_sell_qty_meets_minimums(
    available_base: Dec,
    max_quote: Dec,
    price: Dec,
    pair: Option<PairConfig>,
)
    ensures
        sell_qty_spec(available_base, max_quote, price, pair) matches Ok(t) ==> exists|q: Dec, n: Dec|
            {
                &&& t == dec_text(dec_normalize(q))
                &&& dec_lt(dec_zero(), q)
                &&& !dec_lt(q, min_qty_spec(pair))
                &&& decimal_checked_mul(q, price) == Some(n)
                &&& !dec_lt(n, min_notional_spec(pair))
                &&& dec_lt(dec_zero(), price)
            },
{
    if let Ok(t) = sell_qty_spec(available_base, max_quote, price, pair) {
        let cap = decimal_checked_div(max_quote, price)->0;
        let q = floor_to_step(dec_min(available_base, cap), step_spec(pair))->0;
        let n = decimal_checked_mul(q, price)->0;
        assert(t == dec_text(dec_normalize(q)) && dec_lt(dec_zero(), q) && !dec_lt(
            q,
            min_qty_spec(pair),
        ) && decimal_checked_mul(
            q,
            price,
        ) == Some(n) && !dec_lt(n, min_notional_spec(pair)));
    }
}

/// A buy size that is returned is not below the pair's minimum quantity, and
/// its budget was not below the minimum notional; the text is that quantity
/// normalised.
pub proof fn lemma_buy_qty_meets_minimums(
    available_quote: Dec,
    max_quote: Dec,
    price: Dec,
    pair: Option<PairConfig>,
)
    ensures
        buy_qty_spec(available_quote, max_quote, price, pair) matches Ok(t) ==> exists|q: Dec|
            {
                &&& t == dec_text(dec_normalize(q))
                &&& !dec_lt(q, min_qty_spec(pair))
                &&& !dec_lt(dec_min(available_quote, max_quote), min_notional_spec(pair))
                &&& dec_lt(dec_zero(), price)
            },
{
    if let Ok(t) = buy_qty_spec(available_quote, max_quote, price, pair) {
        let budget = dec_min(available_quote, max_quote);
        let q0 = decimal_checked_div(budget, price)->0;
        let q = floor_to_step(q0, step_spec(pair))->0;
        assert(t == dec_text(dec_normalize(q)) && !dec_lt(q, min_qty_spec(pair)));
    }
}

/// A post-only buy price that is returned is the written form of a tick
/// count that is at least one tick, not above one tick under the best bid
/// (or one tick, whichever is more), and at least one tick under a positive
/// best ask, so the order cannot cross the book.
pub proof fn lemma_post_only_price_stays_passive(book: OrderbookData, tick_size: Seq<char>)
    ensures
        post_only_spec(book, tick_size) matches Some(text) ==> {
            let tick = price_ticks_of(tick_size)->0 as int;
            let bid = book.bids@[0].price_ticks->0 as int;
            &&& tick > 0
            &&& post_only_target(bid, best_ask(book), tick) matches Some(t)
            &&& text == scaled_text(t, 6)
            &&& tick <= t
            &&& t <= (if bid - tick < tick {
                tick
            } else {
                bid - tick
            })
            &&& match best_ask(book) {
                Some(a) => a > 0 ==> t <= a - tick && t < a,
                None => true,
            }
        },
{
    if let Some(text) = post_only_spec(book, tick_size) {
        let tick = price_ticks_of(tick_size)->0 as int;
        let bid = book.bids@[0].price_ticks->0 as int;
        lemma_post_only_target_bounds(bid, best_ask(book), tick);
    }
}

proof fn lemma_normalize_shape(v: Dec)
    ensures
        dec_normalize(v).mantissa == 0 ==> dec_normalize(v) == dec_zero(),
        dec_normalize(v).scale > 0 ==> dec_normalize(v).mantissa % 10 != 0,
    decreases v.scale,
{
    if v.mantissa != 0 && v.scale > 0 && v.mantissa % 10 == 0 {
        lemma_normalize_shape(
            Dec { negative: v.negative, mantissa: v.mantissa / 10, scale: (v.scale - 1) as u32 },
        );
    }
}

proof fn lemma_nat_digits_are_digits(n: nat)
    ensures
        forall|i: int| 0 <= i < nat_digits(n).len() ==> is_digit_char(#[trigger] nat_digits(n)[i]),
        nat_digits(n).len() > 0,
        nat_digits(n).last() == digit_char(n % 10),
    decreases n,
{
    if n >= 10 {
        lemma_nat_digits_are_digits(n / 10);
        let p = nat_digits(n / 10);
        assert forall|i: int| 0 <= i < nat_digits(n).len() implies is_digit_char(
            #[trigger] nat_digits(n)[i],
        ) by {
            if i < p.len() {
                assert(nat_digits(n)[i] == p[i]);
            }
        }
    }
}

/// `format_decimal` writes exactly the text of the normalised decimal: the
/// trimming of trailing zeros and of a trailing point never removes anything,
/// because normalisation has already removed them. So the text is never
/// empty, never ends in a point, and ends in a zero only when it has no point.
pub proof fn lemma_format_decimal_is_normalized_text(v: Dec)
    ensures
        format_decimal_spec(v) == dec_text(dec_normalize(v)),
        format_decimal_spec(v).len() > 0,
        format_decimal_spec(v).last() != '.',
        format_decimal_spec(v).contains('.') ==> format_decimal_spec(v).last() != '0',
{
    let n = dec_normalize(v);
    let t = dec_text(n);
    lemma_normalize_shape(v);
    let sign: Seq<char> = if n.negative {
        seq!['-']
    } else {
        Seq::empty()
    };
    if n.scale == 0 {
        lemma_nat_digits_are_digits(n.mantissa as nat);
        let d = nat_digits(n.mantissa as nat);
        assert(t == sign + d);
        assert(!t.contains('.')) by {
            if t.contains('.') {
                let i = choose|i: int| 0 <= i < t.len() && t[i] == '.';
                if i < sign.len() {
                    assert(t[i] == '-');
                } else {
                    assert(t[i] == d[i - sign.len()]);
                    assert(is_digit_char(d[i - sign.len()]));
                }
            }
        }
        assert(t.len() > 0);
        assert(t.last() == d.last());
        assert(is_digit_char(d[d.len() - 1]));
    } else {
        let m = n.mantissa as nat;
        lemma_nat_digits_are_digits(m);
        assert(mantissa_digits(m) == nat_digits(m));
        let p = padded_digits(m, n.scale as nat);
        assert(p.last() == nat_digits(m).last());
        let frac = p.subrange(p.len() - n.scale, p.len() as int);
        assert(frac.last() == p.last());
        let u = unsigned_text(m, n.scale as nat);
        assert(u.last() == frac.last());
        assert(t.last() == u.last());
        assert(m % 10 != 0);
        assert(digit_char(m % 10) != '0');
        assert(t.last() != '0');
        assert(t.last() != '.');
        assert(trim_end_char(t, '0') == t);
        assert(trim_end_char(t, '.') == t);
        let whole = p.subrange(0, p.len() - n.scale);
        let head = if whole.len() == 0 {
            seq!['0']
        } else {
            whole
        };
        assert(u == head + seq!['.'] + frac);
        assert(u[head.len() as int] == '.');
        assert(t[sign.len() as int + head.len() as int] == '.');
        assert(t.contains('.'));
    }
}

/// `format_decimal` depends only on the value: two decimals that are equal
/// as numbers (whatever their scale or the sign of a zero) are written the
/// same.
pub proof fn lemma_format_decimal_depends_on_value(v: Dec, w: Dec)
    requires
        dec_eq(v, w),
    ensures
        format_decimal_spec(v) == format_decimal_spec(w),
{
    crate::decimal::lemma_normalize_canonical(v, w);
}

/// A buy is sized from its budget alone: the result depends on the
/// available quote and the cap only through the smaller of the two, so a
/// returned size is the one for a budget equal to both, and raising the
/// larger one changes nothing.
pub proof fn lemma_buy_qty_uses_budget(
    available_quote: Dec,
    max_quote: Dec,
    price: Dec,
    pair: Option<PairConfig>,
)
    ensures
        buy_qty_spec(available_quote, max_quote, price, pair) matches Ok(t) ==> buy_qty_spec(
            dec_min(available_quote, max_quote),
            dec_min(available_quote, max_quote),
            price,
            pair,
        ) == Ok::<Seq<char>, MarketError>(t),
{
    let b = dec_min(available_quote, max_quote);
    assert(dec_min(b, b) == b);
}

/// A sell is sized from the smaller of the available base and the cap's
/// quantity (`max_quote / price`): while the cap's quantity is not below the
/// available base, raising the cap changes nothing; while the available base
/// is above the cap's quantity, more base changes nothing.
pub proof fn lemma_sell_qty_uses_smaller(
    available_base: Dec,
    other_base: Dec,
    max_quote: Dec,
    other_quote: Dec,
    price: Dec,
    pair: Option<PairConfig>,
)
    ensures
        ({
            let cap = decimal_checked_div(max_quote, price);
            let cap2 = decimal_checked_div(other_quote, price);
            &&& (cap is Some && cap2 is Some && !dec_lt(cap->0, available_base) && !dec_lt(
                cap2->0,
                available_base,
            ) && sell_qty_spec(available_base, max_quote, price, pair) is Ok) ==> sell_qty_spec(
                available_base,
                other_quote,
                price,
                pair,
            ) == sell_qty_spec(available_base, max_quote, price, pair)
            &&& (cap is Some && dec_lt(cap->0, available_base) && dec_lt(cap->0, other_base)
                && sell_qty_spec(available_base, max_quote, price, pair) is Ok) ==> sell_qty_spec(
                other_base,
                max_quote,
                price,
                pair,
            ) == sell_qty_spec(available_base, max_quote, price, pair)
        }),
{
}

/// The symbol choice prefers the trimmed preferred symbol whenever it is
/// listed, and otherwise takes `BTC-USDT`, `ETH-USDT`, `SOL-USDT` and
/// `BNB-USDT` in that order, the first that is listed.
pub proof fn lemma_pick_symbol_order(listed: Seq<Seq<char>>, preferred: Seq<char>)
    ensures
        trim_seq(preferred).len() > 0 && listed.contains(trim_seq(preferred)) ==> pick_symbol_spec(
            listed,
            preferred,
        ) == trim_seq(preferred),
        !(trim_seq(preferred).len() > 0 && listed.contains(trim_seq(preferred))) ==> {
            &&& listed.contains("BTC-USDT"@) ==> pick_symbol_spec(listed, preferred) == "BTC-USDT"@
            &&& !listed.contains("BTC-USDT"@) && listed.contains("ETH-USDT"@) ==> pick_symbol_spec(
                listed,
                preferred,
            ) == "ETH-USDT"@
            &&& !listed.contains("BTC-USDT"@) && !listed.contains("ETH-USDT"@) && listed.contains(
                "SOL-USDT"@,
            ) ==> pick_symbol_spec(listed, preferred) == "SOL-USDT"@
            &&& !listed.contains("BTC-USDT"@) && !listed.contains("ETH-USDT"@) && !listed.contains(
                "SOL-USDT"@,
            ) && listed.contains("BNB-USDT"@) ==> pick_symbol_spec(listed, preferred)
                == "BNB-USDT"@
        },
{
    reveal_with_fuel(first_listed_candidate, 5);
}

} // verus!
