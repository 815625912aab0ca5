//! Wilder RSI over a close series, and the threshold-crossing signal of the
//! teaching bot.
use crate::decimal::{
    pow10, dec_int, dec_is_zero, dec_le, dec_lt, dec_max, dec_neg, dec_zero, decimal_checked_add,
    decimal_checked_div, decimal_checked_mul, decimal_checked_sub, Dec,
};
use vstd::prelude::*;

verus! {

/// The latest two RSI values and the action they suggest.
pub struct RsiSignal {
    pub latest_rsi: Option<Dec>,
    pub previous_rsi: Option<Dec>,
    pub action: String,
    pub reason: String,
}

/// Why no RSI could be computed.
#[derive(Clone, Copy, Debug, PartialEq, Eq, Structural)]
pub enum RsiError {
    /// The period is zero.
    PeriodNotPositive,
    /// A decimal operation overflowed.
    ArithmeticOverflow,
}

/// The message for each error.
pub open spec fn rsi_error_text(e: RsiError) -> Seq<char> {
    match e {
        RsiError::PeriodNotPositive => "period must be positive"@,
        RsiError::ArithmeticOverflow => "decimal arithmetic overflow"@,
    }
}

impl RsiError {
    /// The message for the error.
    pub fn message(&self) -> (r: String)
        ensures
            r@ == rsi_error_text(*self),
    {
        match self {
            RsiError::PeriodNotPositive => String::from_str("period must be positive"),
            RsiError::ArithmeticOverflow => String::from_str("decimal arithmetic overflow"),
        }
    }
}

/// All closes are valid decimals.
pub open spec fn all_wf(closes: Seq<Dec>) -> bool {
    forall|i: int| 0 <= i < closes.len() ==> (#[trigger] closes[i]).wf()
}

/// The gain of a price change: the change when positive, else zero.
pub open spec fn gain_of(change: Dec) -> Dec {
    dec_max(change, dec_zero())
}

/// The loss of a price change: the negated change when positive, else zero.
pub open spec fn loss_of(change: Dec) -> Dec {
    dec_max(dec_neg(change), dec_zero())
}

/// The sums of gains and of losses over the changes `1..=k`.
pub open spec fn window_sums(closes: Seq<Dec>, k: nat) -> Option<(Dec, Dec)>
    decreases k,
{
    if k == 0 {
        Some((dec_zero(), dec_zero()))
    } else {
        match window_sums(closes, (k - 1) as nat) {
            Some((g, l)) => match decimal_checked_sub(closes[k as int], closes[k - 1]) {
                Some(c) => match (
                    decimal_checked_add(g, gain_of(c)),
                    decimal_checked_add(l, loss_of(c)),
                ) {
                    (Some(g2), Some(l2)) => Some((g2, l2)),
                    _ => None,
                },
                None => None,
            },
            None => None,
        }
    }
}

/// Wilder's smoothed average gain and loss at `index >= period`.
pub open spec fn averages(closes: Seq<Dec>, period: nat, index: nat) -> Option<(Dec, Dec)>
    decreases index,
{
    let p = dec_int(period as int);
    if index <= period {
        match window_sums(closes, period) {
            Some((g, l)) => match (decimal_checked_div(g, p), decimal_checked_div(l, p)) {
                (Some(ag), Some(al)) => Some((ag, al)),
                _ => None,
            },
            None => None,
        }
    } else {
        let p1 = dec_int(period - 1);
        match averages(closes, period, (index - 1) as nat) {
            Some((ag, al)) => match decimal_checked_sub(closes[index as int], closes[index - 1]) {
                Some(c) => {
                    let g = match decimal_checked_mul(ag, p1) {
                        Some(m) => match decimal_checked_add(m, gain_of(c)) {
                            Some(s) => decimal_checked_div(s, p),
                            None => None,
                        },
                        None => None,
                    };
                    let l = match decimal_checked_mul(al, p1) {
                        Some(m) => match decimal_checked_add(m, loss_of(c)) {
                            Some(s) => decimal_checked_div(s, p),
                            None => None,
                        },
                        None => None,
                    };
                    match (g, l) {
                        (Some(g2), Some(l2)) => Some((g2, l2)),
                        _ => None,
                    }
                },
                None => None,
            },
            None => None,
        }
    }
}

/// The RSI of an average gain and loss: 50 when both are zero, 100 when only
/// the loss is zero, else `100 - 100 / (1 + gain / loss)`.
pub open spec fn rsi_from(avg_gain: Dec, avg_loss: Dec) -> Option<Dec> {
    if dec_is_zero(avg_loss) {
        if dec_is_zero(avg_gain) {
            Some(dec_int(50))
        } else {
            Some(dec_int(100))
        }
    } else {
        match decimal_checked_div(avg_gain, avg_loss) {
            Some(rs) => match decimal_checked_add(dec_int(1), rs) {
                Some(t) => match decimal_checked_div(dec_int(100), t) {
                    Some(q) => decimal_checked_sub(dec_int(100), q),
                    None => None,
                },
                None => None,
            },
            None => None,
        }
    }
}

/// The RSI at `index >= period`.
pub open spec fn rsi_at(closes: Seq<Dec>, period: nat, index: nat) -> Option<Dec> {
    match averages(closes, period, index) {
        Some((ag, al)) => rsi_from(ag, al),
        None => None,
    }
}

/// The RSI could be computed at every index from `period` to below `n`.
pub open spec fn rsi_defined_upto(closes: Seq<Dec>, period: nat, n: nat) -> bool {
    forall|i: nat| period <= i < n ==> #[trigger] rsi_at(closes, period, i) is Some
}

/// The RSI series aligned to the closes, `None` when an operation overflows:
/// no value before index `period`, the RSI at every later index.
pub open spec fn rsi_series(closes: Seq<Dec>, period: nat) -> Option<Seq<Option<Dec>>> {
    if closes.len() <= period {
        Some(Seq::new(closes.len(), |i: int| None::<Dec>))
    } else if rsi_defined_upto(closes, period, closes.len()) {
        Some(
            Seq::new(
                closes.len(),
                |i: int|
                    if i < period {
                        None::<Dec>
                    } else {
                        rsi_at(closes, period, i as nat)
                    },
            ),
        )
    } else {
        None
    }
}

/// The RSI of an average gain and loss.
fn rsi_from_averages(avg_gain: &Dec, avg_loss: &Dec) -> (r: Option<Dec>)
    requires
        avg_gain.wf(),
        avg_loss.wf(),
    ensures
        r == rsi_from(*avg_gain, *avg_loss),
        r matches Some(d) ==> d.wf(),
{
    if avg_loss.is_zero() {
        if avg_gain.is_zero() {
            return Some(Dec::from_i64(50));
        }
        return Some(Dec::from_i64(100));
    }
    let rs = avg_gain.checked_div(avg_loss)?;
    let t = Dec::from_i64(1).checked_add(&rs)?;
    let q = Dec::from_i64(100).checked_div(&t)?;
    Dec::from_i64(100).checked_sub(&q)
}

/// The gain and loss of the change from `closes[k - 1]` to `closes[k]`.
fn change_parts(closes: &[Dec], k: usize) -> (r: Option<(Dec, Dec)>)
    requires
        1 <= k < closes@.len(),
        all_wf(closes@),
    ensures
        match decimal_checked_sub(closes@[k as int], closes@[k - 1]) {
            Some(c) => r == Some((gain_of(c), loss_of(c))),
            None => r is None,
        },
        r matches Some((g, l)) ==> g.wf() && l.wf(),
{
    assert(closes@[k as int].wf() && closes@[k - 1].wf());
    let change = closes[k].checked_sub(&closes[k - 1])?;
    let zero = Dec::zero();
    let gain = change.max(&zero);
    let loss = change.neg().max(&zero);
    Some((gain, loss))
}

/// Wilder RSI values aligned to the close series: `None` before index
/// `period`, the RSI from there on.
pub fn calculate_rsi(closes: &[Dec], period: usize) -> (r: Result<Vec<Option<Dec>>, RsiError>)
    requires
        all_wf(closes@),
    ensures
        period == 0 ==> r == Err::<Vec<Option<Dec>>, RsiError>(RsiError::PeriodNotPositive),
        period > 0 ==> match rsi_series(closes@, period as nat) {
            Some(s) => r matches Ok(v) && v@ == s,
            None => r == Err::<Vec<Option<Dec>>, RsiError>(RsiError::ArithmeticOverflow),
        },
        r matches Ok(v) ==> present_wf(v@),
{
    if period == 0 {
        return Err(RsiError::PeriodNotPositive);
    }
    let n = closes.len();
    let mut values: Vec<Option<Dec>> = Vec::new();
    for i in 0..n
        invariant
            values@ == Seq::new(i as nat, |j: int| None::<Dec>),
    {
        values.push(None);
        assert(values@ =~= Seq::new((i + 1) as nat, |j: int| None::<Dec>));
    }
    if n <= period {
        assert(values@ =~= Seq::new(n as nat, |j: int| None::<Dec>));
        return Ok(values);
    }
    let ghost cs = closes@;
    let mut g = Dec::zero();
    let mut l = Dec::zero();
    let mut k: usize = 1;
    while k <= period
        invariant
            1 <= k <= period + 1,
            0 < period,
            period < n == cs.len(),
            cs == closes@,
            all_wf(cs),
            g.wf(),
            l.wf(),
            window_sums(cs, (k - 1) as nat) == Some((g, l)),
        decreases period + 1 - k,
    {
        let parts = change_parts(closes, k);
        let ghost prev = window_sums(cs, (k - 1) as nat);
        match parts {
            None => {
                assert(window_sums(cs, k as nat) is None);
                proof {
                    lemma_window_none_propagates(cs, period as nat, k as nat);
                    assert(rsi_at(cs, period as nat, period as nat) is None);
                }
                return Err(RsiError::ArithmeticOverflow);
            },
            Some((gain, loss)) => {
                let g2 = g.checked_add(&gain);
                let l2 = l.checked_add(&loss);
                match (g2, l2) {
                    (Some(a), Some(b)) => {
                        g = a;
                        l = b;
                    },
                    _ => {
                        assert(window_sums(cs, k as nat) is None);
                        proof {
                            lemma_window_none_propagates(cs, period as nat, k as nat);
                            assert(rsi_at(cs, period as nat, period as nat) is None);
                        }
                        return Err(RsiError::ArithmeticOverflow);
                    },
                }
            },
        }
        k = k + 1;
    }
    let p = Dec::from_u64(period as u64);
    let p1 = Dec::from_u64((period - 1) as u64);
    assert(p == dec_int(period as int));
    let (mut ag, mut al) = match (g.checked_div(&p), l.checked_div(&p)) {
        (Some(a), Some(b)) => (a, b),
        _ => {
            assert(averages(cs, period as nat, period as nat) is None);
            assert(rsi_at(cs, period as nat, period as nat) is None);
            return Err(RsiError::ArithmeticOverflow);
        },
    };
    assert(averages(cs, period as nat, period as nat) == Some((ag, al)));
    match rsi_from_averages(&ag, &al) {
        Some(v) => {
            values.set(period, Some(v));
        },
        None => {
            assert(rsi_at(cs, period as nat, period as nat) is None);
            return Err(RsiError::ArithmeticOverflow);
        },
    }
    let mut index: usize = period + 1;
    while index < n
        invariant
            period + 1 <= index <= n == cs.len(),
            0 < period,
            cs == closes@,
            all_wf(cs),
            ag.wf(),
            al.wf(),
            p == dec_int(period as int),
            p1 == dec_int(period - 1),
            averages(cs, period as nat, (index - 1) as nat) == Some((ag, al)),
            values@.len() == n,
            present_wf(values@),
            forall|j: int| 0 <= j < period ==> values@[j] is None,
            forall|j: int| period <= j < n ==> #[trigger] values@[j] == (if j < index {
                rsi_at(cs, period as nat, j as nat)
            } else {
                None
            }),
            forall|j: nat| period <= j < index ==> #[trigger] rsi_at(cs, period as nat, j) is Some,
        decreases n - index,
    {
        let ghost idx = index as nat;
        assert(averages(cs, period as nat, idx) == {
            let c = decimal_checked_sub(cs[idx as int], cs[idx - 1]);
            match c {
                Some(c) => {
                    let g = match decimal_checked_mul(ag, p1) {
                        Some(m) => match decimal_checked_add(m, gain_of(c)) {
                            Some(s) => decimal_checked_div(s, p),
                            None => None,
                        },
                        None => None,
                    };
                    let l = match decimal_checked_mul(al, p1) {
                        Some(m) => match decimal_checked_add(m, loss_of(c)) {
                            Some(s) => decimal_checked_div(s, p),
                            None => None,
                        },
                        None => None,
                    };
                    match (g, l) {
                        (Some(g2), Some(l2)) => Some((g2, l2)),
                        _ => None,
                    }
                },
                None => None,
            }
        });
        let parts = change_parts(closes, index);
        let next = match parts {
            None => None,
            Some((gain, loss)) => {
                let gm = match ag.checked_mul(&p1) {
                    Some(m) => match m.checked_add(&gain) {
                        Some(s) => s.checked_div(&p),
                        None => None,
                    },
                    None => None,
                };
                let lm = match al.checked_mul(&p1) {
                    Some(m) => match m.checked_add(&loss) {
                        Some(s) => s.checked_div(&p),
                        None => None,
                    },
                    None => None,
                };
                match (gm, lm) {
                    (Some(a), Some(b)) => Some((a, b)),
                    _ => None,
                }
            },
        };
        match next {
            None => {
                assert(averages(cs, period as nat, idx) is None);
                assert(rsi_at(cs, period as nat, idx) is None);
                return Err(RsiError::ArithmeticOverflow);
            },
            Some((a, b)) => {
                ag = a;
                al = b;
            },
        }
        match rsi_from_averages(&ag, &al) {
            Some(v) => {
                values.set(index, Some(v));
            },
            None => {
                assert(rsi_at(cs, period as nat, idx) is None);
                return Err(RsiError::ArithmeticOverflow);
            },
        }
        index = index + 1;
    }
    assert(rsi_defined_upto(cs, period as nat, n as nat));
    assert(values@ =~= Seq::new(
        n as nat,
        |i: int|
            if i < period {
                None::<Dec>
            } else {
                rsi_at(cs, period as nat, i as nat)
            },
    ));
    Ok(values)
}

proof fn lemma_window_none_propagates(closes: Seq<Dec>, period: nat, k: nat)
    requires
        1 <= k <= period,
        window_sums(closes, k) is None,
    ensures
        window_sums(closes, period) is None,
    decreases period - k,
{
    if k < period {
        assert(window_sums(closes, k + 1) is None);
        lemma_window_none_propagates(closes, period, k + 1);
    }
}

/// The last value that is present.
pub open spec fn latest_some(values: Seq<Option<Dec>>) -> Option<Dec>
    decreases values.len(),
{
    if values.len() == 0 {
        None
    } else if values.last() is Some {
        values.last()
    } else {
        latest_some(values.drop_last())
    }
}

/// The present value before the last present one.
pub open spec fn previous_some(values: Seq<Option<Dec>>) -> Option<Dec>
    decreases values.len(),
{
    if values.len() == 0 {
        None
    } else if values.last() is Some {
        latest_some(values.drop_last())
    } else {
        previous_some(values.drop_last())
    }
}

/// The last value that is present.
fn latest_non_none(values: &Vec<Option<Dec>>) -> (r: Option<Dec>)
    ensures
        r == latest_some(values@),
{
    let mut i = values.len();
    assert(values@.subrange(0, i as int) =~= values@);
    while i > 0
        invariant
            i <= values.len(),
            latest_some(values@) == latest_some(values@.subrange(0, i as int)),
        decreases i,
    {
        let ghost s = values@.subrange(0, i as int);
        assert(s.drop_last() =~= values@.subrange(0, i - 1));
        assert(s.last() == values@[i - 1]);
        if values[i - 1].is_some() {
            return values[i - 1];
        }
        i = i - 1;
    }
    None
}

/// The present value before the last present one.
fn previous_non_none(values: &Vec<Option<Dec>>) -> (r: Option<Dec>)
    ensures
        r == previous_some(values@),
{
    let mut i = values.len();
    assert(values@.subrange(0, i as int) =~= values@);
    while i > 0
        invariant
            i <= values.len(),
            previous_some(values@) == previous_some(values@.subrange(0, i as int)),
        decreases i,
    {
        let ghost s = values@.subrange(0, i as int);
        assert(s.drop_last() =~= values@.subrange(0, i - 1));
        assert(s.last() == values@[i - 1]);
        if values[i - 1].is_some() {
            let mut j = i - 1;
            assert(values@.subrange(0, j as int) =~= values@.subrange(0, i - 1));
            while j > 0
                invariant
                    j <= i - 1,
                    i <= values.len(),
                    previous_some(values@) == latest_some(values@.subrange(0, i - 1)),
                    latest_some(values@.subrange(0, i - 1)) == latest_some(
                        values@.subrange(0, j as int),
                    ),
                decreases j,
            {
                let ghost t = values@.subrange(0, j as int);
                assert(t.drop_last() =~= values@.subrange(0, j - 1));
                assert(t.last() == values@[j - 1]);
                if values[j - 1].is_some() {
                    return values[j - 1];
                }
                j = j - 1;
            }
            return None;
        }
        i = i - 1;
    }
    None
}

/// The signal for the two latest RSI values and the thresholds.
pub open spec fn signal_spec(
    latest: Option<Dec>,
    previous: Option<Dec>,
    oversold: Dec,
    overbought: Dec,
) -> (Seq<char>, Seq<char>) {
    match (latest, previous) {
        (Some(l), Some(p)) => if dec_le(p, oversold) && dec_lt(oversold, l) {
            ("buy"@, "RSI crossed up out of oversold"@)
        } else if dec_le(overbought, p) && dec_lt(l, overbought) {
            ("sell"@, "RSI crossed down out of overbought"@)
        } else {
            ("hold"@, "RSI has not crossed a threshold"@)
        },
        _ => ("hold"@, "not enough candle history"@),
    }
}

/// Evaluates threshold crossings on the latest two RSI values: `buy` when the
/// RSI rises out of the oversold zone, `sell` when it falls out of the
/// overbought zone, `hold` otherwise or without two values.
pub fn rsi_signal(closes: &[Dec], period: usize, oversold: Dec, overbought: Dec) -> (r: Result<
    RsiSignal,
    RsiError,
>)
    requires
        all_wf(closes@),
        oversold.wf(),
        overbought.wf(),
    ensures
        period == 0 ==> r == Err::<RsiSignal, RsiError>(RsiError::PeriodNotPositive),
        period > 0 ==> match rsi_series(closes@, period as nat) {
            Some(s) => r matches Ok(sig) && {
                &&& sig.latest_rsi == latest_some(s)
                &&& sig.previous_rsi == previous_some(s)
                &&& (sig.action@, sig.reason@) == signal_spec(
                    latest_some(s),
                    previous_some(s),
                    oversold,
                    overbought,
                )
            },
            None => r == Err::<RsiSignal, RsiError>(RsiError::ArithmeticOverflow),
        },
{
    let values = calculate_rsi(closes, period)?;
    let latest = latest_non_none(&values);
    let previous = previous_non_none(&values);
    if latest.is_none() || previous.is_none() {
        return Ok(
            RsiSignal {
                latest_rsi: latest,
                previous_rsi: previous,
                action: String::from_str("hold"),
                reason: String::from_str("not enough candle history"),
            },
        );
    }
    let latest_v = latest.unwrap();
    let previous_v = previous.unwrap();
    proof {
        lemma_latest_in(values@);
        lemma_previous_in(values@);
    }
    if !oversold.lt(&previous_v) && oversold.lt(&latest_v) {
        return Ok(
            RsiSignal {
                latest_rsi: latest,
                previous_rsi: previous,
                action: String::from_str("buy"),
                reason: String::from_str("RSI crossed up out of oversold"),
            },
        );
    }
    if !previous_v.lt(&overbought) && latest_v.lt(&overbought) {
        return Ok(
            RsiSignal {
                latest_rsi: latest,
                previous_rsi: previous,
                action: String::from_str("sell"),
                reason: String::from_str("RSI crossed down out of overbought"),
            },
        );
    }
    Ok(
        RsiSignal {
            latest_rsi: latest,
            previous_rsi: previous,
            action: String::from_str("hold"),
            reason: String::from_str("RSI has not crossed a threshold"),
        },
    )
}

/// Every present value of a series is valid.
pub open spec fn present_wf(values: Seq<Option<Dec>>) -> bool {
    forall|i: int| 0 <= i < values.len() ==> (#[trigger] values[i] matches Some(d) ==> d.wf())
}

proof fn lemma_latest_in(values: Seq<Option<Dec>>)
    requires
        present_wf(values),
    ensures
        latest_some(values) matches Some(d) ==> d.wf(),
    decreases values.len(),
{
    if values.len() > 0 {
        assert(present_wf(values.drop_last()));
        lemma_latest_in(values.drop_last());
        assert(values[values.len() - 1] == values.last());
    }
}

proof fn lemma_previous_in(values: Seq<Option<Dec>>)
    requires
        present_wf(values),
    ensures
        previous_some(values) matches Some(d) ==> d.wf(),
    decreases values.len(),
{
    if values.len() > 0 {
        assert(present_wf(values.drop_last()));
        lemma_previous_in(values.drop_last());
        lemma_latest_in(values.drop_last());
    }
}

/// The RSI series is aligned to the closes: it has one entry per close, no
/// value before index `period`, and a value at every index from `period` on.
pub proof fn lemma_rsi_series_aligned(closes: Seq<Dec>, period: nat)
    requires
        period > 0,
    ensures
        rsi_series(closes, period) matches Some(s) ==> {
            &&& s.len() == closes.len()
            &&& forall|i: int| 0 <= i < s.len() && i < period ==> (#[trigger] s[i]) is None
            &&& forall|i: int| period <= i < s.len() ==> (#[trigger] s[i]) is Some
        },
{
    if let Some(s) = rsi_series(closes, period) {
        if closes.len() > period {
            assert forall|i: int| period <= i < s.len() implies (#[trigger] s[i]) is Some by {
                assert(rsi_at(closes, period, i as nat) is Some);
            }
        }
    }
}

proof fn lemma_window_sums_prefix(a: Seq<Dec>, b: Seq<Dec>, k: nat)
    requires
        k < a.len(),
        k < b.len(),
        forall|i: int| 0 <= i <= k ==> a[i] == b[i],
    ensures
        window_sums(a, k) == window_sums(b, k),
    decreases k,
{
    if k > 0 {
        lemma_window_sums_prefix(a, b, (k - 1) as nat);
        assert(a[k as int] == b[k as int]);
        assert(a[k - 1] == b[k - 1]);
    }
}

proof fn lemma_averages_prefix(a: Seq<Dec>, b: Seq<Dec>, period: nat, index: nat)
    requires
        period <= index,
        index < a.len(),
        index < b.len(),
        forall|i: int| 0 <= i <= index ==> a[i] == b[i],
    ensures
        averages(a, period, index) == averages(b, period, index),
    decreases index,
{
    if index <= period {
        lemma_window_sums_prefix(a, b, period);
    } else {
        lemma_averages_prefix(a, b, period, (index - 1) as nat);
        assert(a[index as int] == b[index as int]);
        assert(a[index - 1] == b[index - 1]);
    }
}

/// An RSI value depends only on the closes up to its index: the series of the
/// first `k` closes is the first `k` entries of the series of all closes.
pub proof fn lemma_rsi_series_prefix(closes: Seq<Dec>, period: nat, k: nat)
    requires
        period > 0,
        k <= closes.len(),
    ensures
        rsi_series(closes, period) matches Some(s) ==> rsi_series(closes.take(k as int), period)
            == Some(s.take(k as int)),
{
    if let Some(s) = rsi_series(closes, period) {
        let c = closes.take(k as int);
        lemma_rsi_series_aligned(closes, period);
        if k <= period {
            assert(rsi_series(c, period) == Some(Seq::new(k, |i: int| None::<Dec>)));
            assert(Seq::new(k, |i: int| None::<Dec>) =~= s.take(k as int));
        } else {
            assert forall|i: nat| period <= i < k implies #[trigger] rsi_at(c, period, i)
                == rsi_at(closes, period, i) by {
                assert forall|j: int| 0 <= j <= i implies c[j] == closes[j] by {}
                lemma_averages_prefix(c, closes, period, i);
            }
            assert forall|i: nat| period <= i < k implies #[trigger] rsi_at(c, period, i) is Some by {
                assert(rsi_at(c, period, i) == rsi_at(closes, period, i));
                assert(s[i as int] == rsi_at(closes, period, i));
            }
            assert(rsi_defined_upto(c, period, k));
            let sc = rsi_series(c, period)->0;
            assert forall|i: int| 0 <= i < k implies sc[i] == s.take(k as int)[i] by {
                if i >= period {
                    assert(rsi_at(c, period, i as nat) == rsi_at(closes, period, i as nat));
                }
            }
            assert(sc =~= s.take(k as int));
        }
    }
}

proof fn lemma_latest_of_absent(values: Seq<Option<Dec>>)
    requires
        forall|i: int| 0 <= i < values.len() ==> (#[trigger] values[i]) is None,
    ensures
        latest_some(values) is None,
        previous_some(values) is None,
    decreases values.len(),
{
    if values.len() > 0 {
        assert(values[values.len() - 1] is None);
        lemma_latest_of_absent(values.drop_last());
    }
}

/// With at most `period + 1` closes there are not two RSI values yet, so the
/// signal is `hold` for lack of history, whatever the thresholds.
pub proof fn lemma_short_history_holds(
    closes: Seq<Dec>,
    period: nat,
    oversold: Dec,
    overbought: Dec,
)
    requires
        period > 0,
        closes.len() <= period + 1,
    ensures
        rsi_series(closes, period) matches Some(s) ==> signal_spec(
            latest_some(s),
            previous_some(s),
            oversold,
            overbought,
        ) == ("hold"@, "not enough candle history"@),
{
    if let Some(s) = rsi_series(closes, period) {
        lemma_rsi_series_aligned(closes, period);
        if closes.len() <= period {
            lemma_latest_of_absent(s);
        } else {
            let t = s.drop_last();
            assert forall|i: int| 0 <= i < t.len() implies (#[trigger] t[i]) is None by {
                assert(t[i] == s[i]);
            }
            lemma_latest_of_absent(t);
            assert(s[s.len() - 1] == s.last());
        }
    }
}

/// The latest value of a series is the value at the last index that holds
/// one, and there is none exactly when no index holds one.
pub proof fn lemma_latest_some_is_last_present(v: Seq<Option<Dec>>)
    ensures
        latest_some(v) is None <==> forall|k: int| 0 <= k < v.len() ==> (#[trigger] v[k]) is None,
        latest_some(v) matches Some(x) ==> exists|j: int|
            0 <= j < v.len() && v[j] == Some(x) && forall|k: int|
                j < k < v.len() ==> (#[trigger] v[k]) is None,
    decreases v.len(),
{
    if v.len() > 0 {
        let d = v.drop_last();
        lemma_latest_some_is_last_present(d);
        if v.last() is Some {
            let x = v.last()->0;
            assert(v[v.len() - 1] == Some(x));
        } else {
            assert(v[v.len() - 1] is None);
            if latest_some(d) is None {
                assert forall|k: int| 0 <= k < v.len() implies (#[trigger] v[k]) is None by {
                    if k < d.len() {
                        assert(v[k] == d[k]);
                    }
                }
            } else {
                let x = latest_some(d)->0;
                let j = choose|j: int|
                    0 <= j < d.len() && d[j] == Some(x) && forall|k: int|
                        j < k < d.len() ==> (#[trigger] d[k]) is None;
                assert(v[j] == d[j]);
                assert forall|k: int| j < k < v.len() implies (#[trigger] v[k]) is None by {
                    if k < d.len() {
                        assert(v[k] == d[k]);
                    }
                }
                assert(d[j] is Some);
                assert(v[j] is Some);
            }
        }
    }
}

/// The previous value of a series is the value at the last index holding
/// one before the last index holding one: exactly one later index holds a
/// value. There is none exactly when at most one index holds a value.
pub proof fn lemma_previous_some_is_second_last_present(v: Seq<Option<Dec>>)
    ensures
        previous_some(v) matches Some(x) ==> exists|i: int, j: int|
            {
                &&& 0 <= i < j < v.len()
                &&& v[i] == Some(x)
                &&& v[j] is Some
                &&& forall|k: int| i < k < v.len() && k != j ==> (#[trigger] v[k]) is None
            },
        previous_some(v) is None ==> forall|i: int, j: int|
            0 <= i < j < v.len() ==> !((#[trigger] v[i]) is Some && (#[trigger] v[j]) is Some),
    decreases v.len(),
{
    if v.len() > 0 {
        let d = v.drop_last();
        if v.last() is Some {
            lemma_latest_some_is_last_present(d);
            lemma_previous_when_last_present(v);
        } else {
            lemma_previous_some_is_second_last_present(d);
            lemma_previous_when_last_absent(v);
        }
    }
}

proof fn lemma_previous_when_last_present(v: Seq<Option<Dec>>)
    requires
        v.len() > 0,
        v.last() is Some,
        latest_some(v.drop_last()) is None <==> forall|k: int|
            0 <= k < v.drop_last().len() ==> (#[trigger] v.drop_last()[k]) is None,
        latest_some(v.drop_last()) matches Some(x) ==> exists|j: int|
            0 <= j < v.drop_last().len() && v.drop_last()[j] == Some(x) && forall|k: int|
                j < k < v.drop_last().len() ==> (#[trigger] v.drop_last()[k]) is None,
    ensures
        previous_some(v) matches Some(x) ==> exists|i: int, j: int|
            {
                &&& 0 <= i < j < v.len()
                &&& v[i] == Some(x)
                &&& v[j] is Some
                &&& forall|k: int| i < k < v.len() && k != j ==> (#[trigger] v[k]) is None
            },
        previous_some(v) is None ==> forall|i: int, j: int|
            0 <= i < j < v.len() ==> !((#[trigger] v[i]) is Some && (#[trigger] v[j]) is Some),
{
    let d = v.drop_last();
    let n = v.len() - 1;
    assert(v[n] == v.last());
    assert(previous_some(v) == latest_some(d));
    if latest_some(d) is Some {
        let x = latest_some(d)->0;
        let i = choose|j: int|
            0 <= j < d.len() && d[j] == Some(x) && forall|k: int|
                j < k < d.len() ==> (#[trigger] d[k]) is None;
        assert(v[i] == d[i]);
        assert forall|k: int| i < k < v.len() && k != n implies (#[trigger] v[k]) is None by {
            assert(v[k] == d[k]);
        }
        assert(0 <= i < n < v.len() && v[i] == Some(x) && v[n] is Some);
    } else {
        assert forall|i: int, j: int| 0 <= i < j < v.len() implies !((#[trigger] v[i]) is Some
            && (#[trigger] v[j]) is Some) by {
            assert(v[i] == d[i]);
            assert(d[i] is None);
        }
    }
}

proof fn lemma_previous_when_last_absent(v: Seq<Option<Dec>>)
    requires
        v.len() > 0,
        v.last() is None,
        previous_some(v.drop_last()) matches Some(x) ==> exists|i: int, j: int|
            {
                &&& 0 <= i < j < v.drop_last().len()
                &&& v.drop_last()[i] == Some(x)
                &&& v.drop_last()[j] is Some
                &&& forall|k: int|
                    i < k < v.drop_last().len() && k != j ==> (#[trigger] v.drop_last()[k]) is None
            },
        previous_some(v.drop_last()) is None ==> forall|i: int, j: int|
            0 <= i < j < v.drop_last().len() ==> !((#[trigger] v.drop_last()[i]) is Some && (
            #[trigger] v.drop_last()[j]) is Some),
    ensures
        previous_some(v) matches Some(x) ==> exists|i: int, j: int|
            {
                &&& 0 <= i < j < v.len()
                &&& v[i] == Some(x)
                &&& v[j] is Some
                &&& forall|k: int| i < k < v.len() && k != j ==> (#[trigger] v[k]) is None
            },
        previous_some(v) is None ==> forall|i: int, j: int|
            0 <= i < j < v.len() ==> !((#[trigger] v[i]) is Some && (#[trigger] v[j]) is Some),
{
    let d = v.drop_last();
    let n = v.len() - 1;
    assert(v[n] == v.last());
    assert(previous_some(v) == previous_some(d));
    if previous_some(d) is Some {
        let x = previous_some(d)->0;
        let (i, j) = choose|i: int, j: int|
            {
                &&& 0 <= i < j < d.len()
                &&& d[i] == Some(x)
                &&& d[j] is Some
                &&& forall|k: int| i < k < d.len() && k != j ==> (#[trigger] d[k]) is None
            };
        assert(v[i] == d[i]);
        assert(v[j] == d[j]);
        assert forall|k: int| i < k < v.len() && k != j implies (#[trigger] v[k]) is None by {
            if k < d.len() {
                assert(v[k] == d[k]);
            }
        }
    } else {
        assert forall|i: int, j: int| 0 <= i < j < v.len() implies !((#[trigger] v[i]) is Some
            && (#[trigger] v[j]) is Some) by {
            if j < d.len() {
                assert(v[i] == d[i]);
                assert(v[j] == d[j]);
            }
        }
    }
}

/// With at least two RSI values, the signal compares the last two: the
/// latest is the RSI at the last close and the previous the RSI at the close
/// before it.
pub proof fn lemma_signal_uses_last_two(closes: Seq<Dec>, period: nat)
    requires
        period > 0,
        closes.len() >= period + 2,
    ensures
        rsi_series(closes, period) matches Some(s) ==> {
            &&& latest_some(s) == s[s.len() - 1]
            &&& previous_some(s) == s[s.len() - 2]
            &&& s[s.len() - 1] is Some
            &&& s[s.len() - 2] is Some
        },
{
    if let Some(s) = rsi_series(closes, period) {
        lemma_rsi_series_aligned(closes, period);
        let n = s.len();
        assert(s[n - 1] is Some);
        assert(s[n - 2] is Some);
        let d = s.drop_last();
        assert(d.last() == s[n - 2]);
        assert(s.last() == s[n - 1]);
    }
}

/// Wilder's smoothing: after the first `period` changes, each average gain
/// (loss) is the previous average times `period - 1`, plus the gain (loss)
/// of the new change, divided by `period`; the gain of a change is the
/// change when it is positive and zero otherwise, the loss is the negated
/// change when that is positive and zero otherwise.
pub proof fn lemma_wilder_smoothing(closes: Seq<Dec>, period: nat, index: nat)
    requires
        period > 0,
        period < index < closes.len(),
    ensures
        averages(closes, period, index) == match averages(closes, period, (index - 1) as nat) {
            Some((ag, al)) => match decimal_checked_sub(closes[index as int], closes[index - 1]) {
                Some(c) => {
                    let gain = if dec_lt(c, dec_zero()) {
                        dec_zero()
                    } else {
                        c
                    };
                    let loss = if dec_lt(dec_zero(), c) {
                        dec_zero()
                    } else {
                        dec_neg(c)
                    };
                    let g = match decimal_checked_mul(ag, dec_int(period - 1)) {
                        Some(m) => match decimal_checked_add(m, gain) {
                            Some(t) => decimal_checked_div(t, dec_int(period as int)),
                            None => None,
                        },
                        None => None,
                    };
                    let l = match decimal_checked_mul(al, dec_int(period - 1)) {
                        Some(m) => match decimal_checked_add(m, loss) {
                            Some(t) => decimal_checked_div(t, dec_int(period as int)),
                            None => None,
                        },
                        None => None,
                    };
                    match (g, l) {
                        (Some(g2), Some(l2)) => Some((g2, l2)),
                        _ => None,
                    }
                },
                None => None,
            },
            None => None,
        },
{
    if let Some(c) = decimal_checked_sub(closes[index as int], closes[index - 1]) {
        let sc = c.signed();
        let p = pow10(c.scale as nat);
        assert(pow10(0) == 1);
        assert(dec_neg(c).signed() == -sc);
        assert(0 * p == 0) by (nonlinear_arith);
        assert(sc * 1 == sc);
        assert(-sc * 1 == -sc);
        assert(dec_lt(dec_neg(c), dec_zero()) == dec_lt(dec_zero(), c));
    }
}

/// The signal: `buy` exactly when both values are present and the RSI rose
/// from at or below the oversold level to above it; otherwise `sell` exactly
/// when both are present and it fell from at or above the overbought level
/// to below it; otherwise `hold`.
pub proof fn lemma_signal_actions(
    latest: Option<Dec>,
    previous: Option<Dec>,
    oversold: Dec,
    overbought: Dec,
)
    ensures
        ({
            let buy = latest is Some && previous is Some && !dec_lt(oversold, previous->0) && dec_lt(
                oversold,
                latest->0,
            );
            let sell = latest is Some && previous is Some && !dec_lt(previous->0, overbought)
                && dec_lt(latest->0, overbought);
            let action = signal_spec(latest, previous, oversold, overbought).0;
            &&& buy ==> action == "buy"@
            &&& !buy && sell ==> action == "sell"@
            &&& !buy && !sell ==> action == "hold"@
        }),
{
}

/// The first averages, at index `period`, are the sums of the gains and of
/// the losses of the first `period` changes, each divided by `period`.
pub proof fn lemma_wilder_seed(closes: Seq<Dec>, period: nat)
    requires
        period > 0,
        period < closes.len(),
    ensures
        averages(closes, period, period) == match window_sums(closes, period) {
            Some((g, l)) => match (
                decimal_checked_div(g, dec_int(period as int)),
                decimal_checked_div(l, dec_int(period as int)),
            ) {
                (Some(ag), Some(al)) => Some((ag, al)),
                _ => None,
            },
            None => None,
        },
        window_sums(closes, 0) == Some((dec_zero(), dec_zero())),
{
}

/// The RSI of an average gain and loss: 50 when both are zero, 100 when only
/// the loss is zero, else `100 - 100 / (1 + gain / loss)`.
pub proof fn lemma_rsi_formula(avg_gain: Dec, avg_loss: Dec)
    ensures
        avg_loss.mantissa == 0 && avg_gain.mantissa == 0 ==> rsi_from(avg_gain, avg_loss) == Some(
            dec_int(50),
        ),
        avg_loss.mantissa == 0 && avg_gain.mantissa != 0 ==> rsi_from(avg_gain, avg_loss) == Some(
            dec_int(100),
        ),
        avg_loss.mantissa != 0 ==> rsi_from(avg_gain, avg_loss) == match decimal_checked_div(
            avg_gain,
            avg_loss,
        ) {
            Some(rs) => match decimal_checked_add(dec_int(1), rs) {
                Some(t) => match decimal_checked_div(dec_int(100), t) {
                    Some(q) => decimal_checked_sub(dec_int(100), q),
                    None => None,
                },
                None => None,
            },
            None => None,
        },
{
}

} // verus!
