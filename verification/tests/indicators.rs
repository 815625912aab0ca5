use polyester_examples::decimal::Dec;
use polyester_examples::indicators::{calculate_rsi, rsi_signal, RsiError};
use polyester_examples::markets::format_decimal;

fn whole(n: i64) -> Dec {
    Dec::from_i64(n)
}

fn closes(values: &[i64]) -> Vec<Dec> {
    values.iter().map(|v| whole(*v)).collect()
}

#[test]
fn rsi_needs_history() {
    let closes = vec![whole(100), whole(101), whole(102)];
    let signal = rsi_signal(&closes, 14, whole(30), whole(70)).unwrap();
    assert_eq!(signal.action, "hold");
}

#[test]
fn rsi_computes_values() {
    let mut closes = Vec::new();
    for i in 0..30 {
        closes.push(whole(100 + i));
    }
    let values = calculate_rsi(&closes, 14).unwrap();
    assert!(values[14].is_some());
    assert!(values.last().unwrap().is_some());
}

#[test]
fn rsi_rejects_zero_period() {
    let err = calculate_rsi(&closes(&[1, 2, 3]), 0).err().unwrap();
    assert_eq!(err, RsiError::PeriodNotPositive);
    assert_eq!(err.message(), "period must be positive");
}

#[test]
fn rsi_series_is_aligned_to_closes() {
    let values = calculate_rsi(&closes(&[10, 13, 12, 14, 15]), 2).unwrap();
    assert_eq!(values.len(), 5);
    assert!(values[0].is_none());
    assert!(values[1].is_none());
    assert!(values[2..].iter().all(|v| v.is_some()));
}

#[test]
fn rsi_values_depend_only_on_earlier_closes() {
    let all = closes(&[10, 13, 12, 14, 15, 11, 16, 18]);
    let full = calculate_rsi(&all, 3).unwrap();
    for k in 0..=all.len() {
        assert_eq!(calculate_rsi(&all[..k], 3).unwrap(), full[..k].to_vec());
    }
}

#[test]
fn rsi_short_series_has_no_values() {
    let values = calculate_rsi(&closes(&[10, 11]), 2).unwrap();
    assert_eq!(values, vec![None, None]);
}

#[test]
fn rsi_wilder_values() {
    // changes +3, -1: average gain 1.5, loss 0.5, RS 3, RSI 75;
    // then +2: gain (1.5 + 2) / 2 = 1.75, loss 0.25, RS 7, RSI 87.5.
    let values = calculate_rsi(&closes(&[10, 13, 12, 14]), 2).unwrap();
    assert_eq!(format_decimal(values[2].unwrap()), "75");
    assert_eq!(format_decimal(values[3].unwrap()), "87.5");
}

#[test]
fn rsi_all_gains_is_100_and_flat_is_50() {
    let up = calculate_rsi(&closes(&[1, 2, 3]), 2).unwrap();
    assert_eq!(format_decimal(up[2].unwrap()), "100");
    let flat = calculate_rsi(&closes(&[5, 5, 5]), 2).unwrap();
    assert_eq!(format_decimal(flat[2].unwrap()), "50");
    let down = calculate_rsi(&closes(&[5, 4, 3]), 2).unwrap();
    assert_eq!(format_decimal(down[2].unwrap()), "0");
}

#[test]
fn rsi_signal_buy_on_cross_up_out_of_oversold() {
    // RSI 0, then about 33.3: crosses 30 upwards.
    let s = rsi_signal(&closes(&[20, 18, 16, 17]), 2, whole(30), whole(70)).unwrap();
    assert_eq!(s.action, "buy");
    assert_eq!(s.reason, "RSI crossed up out of oversold");
    assert_eq!(format_decimal(s.previous_rsi.unwrap()), "0");
}

#[test]
fn rsi_signal_sell_on_cross_down_out_of_overbought() {
    // RSI 100, then about 66.7: crosses 70 downwards.
    let s = rsi_signal(&closes(&[10, 12, 14, 13]), 2, whole(30), whole(70)).unwrap();
    assert_eq!(s.action, "sell");
    assert_eq!(s.reason, "RSI crossed down out of overbought");
    assert_eq!(format_decimal(s.previous_rsi.unwrap()), "100");
}

#[test]
fn rsi_signal_hold_without_cross() {
    let s = rsi_signal(&closes(&[10, 13, 12, 14]), 2, whole(30), whole(70)).unwrap();
    assert_eq!(s.action, "hold");
    assert_eq!(s.reason, "RSI has not crossed a threshold");
    assert_eq!(format_decimal(s.latest_rsi.unwrap()), "87.5");
    assert_eq!(format_decimal(s.previous_rsi.unwrap()), "75");
}

#[test]
fn rsi_signal_one_value_is_not_enough() {
    let s = rsi_signal(&closes(&[10, 13, 12]), 2, whole(30), whole(70)).unwrap();
    assert_eq!(s.action, "hold");
    assert_eq!(s.reason, "not enough candle history");
    assert!(s.latest_rsi.is_some());
    assert!(s.previous_rsi.is_none());
}
