use trading_service::TradingDataBuffer;

const DELTA: f64 = 1e-6;

fn assert_float_eq(a: f64, b: f64) {
    assert!((a - b).abs() < DELTA, "{} != {}", a, b);
}

fn codes(vals: &[f64]) -> Vec<u64> {
    let mut out: Vec<u64> = Vec::new();
    for v in vals {
        out.push(v.to_bits());
    }
    out
}

fn val(code: u64) -> f64 {
    f64::from_bits(code)
}

#[test]
fn test_add_batch_and_get_stats() {
    let mut buffer = TradingDataBuffer::new(5);
    buffer.add_batch(&codes(&[1.0, 2.0, 3.0]));

    let stats = buffer.get_stats();
    assert_float_eq(1.0, val(stats.min));
    assert_float_eq(3.0, val(stats.max));
    assert_float_eq(3.0, val(stats.last));
    assert_float_eq(2.0, val(stats.avg));
    assert_float_eq(0.6666667, val(stats.var));
}

#[test]
fn test_buffer_overflow() {
    let mut buffer = TradingDataBuffer::new(5);
    buffer.add_batch(&codes(&[1.0, 2.0, 3.0, 4.0, 5.0, 6.0]));

    let stats = buffer.get_stats();
    assert_float_eq(2.0, val(stats.min));
    assert_float_eq(6.0, val(stats.max));
    assert_float_eq(6.0, val(stats.last));
    assert_float_eq(4.0, val(stats.avg));
}

#[test]
fn test_empty_buffer() {
    let buffer = TradingDataBuffer::new(5);
    let stats = buffer.get_stats();
    assert_float_eq(0.0, val(stats.min));
    assert_float_eq(0.0, val(stats.max));
    assert_float_eq(0.0, val(stats.last));
    assert_float_eq(0.0, val(stats.avg));
    assert_float_eq(0.0, val(stats.var));
}

#[test]
fn test_single_element() {
    let mut buffer = TradingDataBuffer::new(5);
    buffer.add_batch(&codes(&[5.0]));

    let stats = buffer.get_stats();
    assert_float_eq(5.0, val(stats.min));
    assert_float_eq(5.0, val(stats.max));
    assert_float_eq(5.0, val(stats.last));
    assert_float_eq(5.0, val(stats.avg));
    assert_float_eq(0.0, val(stats.var));
}

#[test]
fn test_variance_calculation() {
    let mut buffer = TradingDataBuffer::new(5);
    buffer.add_batch(&codes(&[2.0, 4.0, 6.0]));

    let stats = buffer.get_stats();
    assert_float_eq(4.0, val(stats.avg));
    assert_float_eq(2.6666667, val(stats.var));
}

#[test]
fn test_min_max_recalculation() {
    let mut buffer = TradingDataBuffer::new(5);
    buffer.add_batch(&codes(&[3.0, 1.0, 5.0, 2.0, 4.0]));
    buffer.add_batch(&codes(&[6.0, 3.0]));

    let stats = buffer.get_stats();
    assert_float_eq(2.0, val(stats.min));
    assert_float_eq(6.0, val(stats.max));
}

#[test]
fn test_large_number_of_additions() {
    let mut buffer = TradingDataBuffer::new(1000);
    let mut large_array: Vec<f64> = Vec::new();
    for i in 0..1000 {
        large_array.push(i as f64);
    }
    buffer.add_batch(&codes(&large_array));

    let stats = buffer.get_stats();
    assert_float_eq(0.0, val(stats.min));
    assert_float_eq(999.0, val(stats.max));
    assert_float_eq(999.0, val(stats.last));
    assert_float_eq(499.5, val(stats.avg));
}

#[test]
fn test_multiple_add_batches() {
    let mut buffer = TradingDataBuffer::new(5);
    buffer.add_batch(&codes(&[1.0, 2.0]));
    buffer.add_batch(&codes(&[3.0, 4.0]));
    buffer.add_batch(&codes(&[5.0]));

    let stats = buffer.get_stats();
    assert_float_eq(1.0, val(stats.min));
    assert_float_eq(5.0, val(stats.max));
    assert_float_eq(5.0, val(stats.last));
    assert_float_eq(3.0, val(stats.avg));
}

#[test]
fn test_snapshot_idempotent() {
    let mut buffer = TradingDataBuffer::new(5);
    buffer.add_batch(&codes(&[1.5, -2.25, 7.75]));

    let first = buffer.get_stats();
    let second = buffer.get_stats();
    assert_eq!(first, second);
}

#[test]
fn test_duplicate_extremum_eviction() {
    let mut buffer = TradingDataBuffer::new(3);
    // evicting one copy of the maximum keeps the other copy in the window
    buffer.add_batch(&codes(&[5.0, 5.0, 1.0, 2.0]));

    let stats = buffer.get_stats();
    assert_float_eq(1.0, val(stats.min));
    assert_float_eq(5.0, val(stats.max));
    assert_float_eq(2.0, val(stats.last));
}

#[test]
fn test_negative_and_fractional_samples() {
    let mut buffer = TradingDataBuffer::new(3);
    buffer.add_batch(&codes(&[-1.5, 0.25, -3.75, 2.5]));

    let stats = buffer.get_stats();
    assert_float_eq(-3.75, val(stats.min));
    assert_float_eq(2.5, val(stats.max));
    assert_float_eq(2.5, val(stats.last));
    assert_float_eq((0.25 - 3.75 + 2.5) / 3.0, val(stats.avg));
}
