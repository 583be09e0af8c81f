use trading_service::TradingDataService;
use trading_service::TradingError;

const DELTA: f64 = 1e-6;

fn assert_float_eq(a: f64, b: f64) {
    assert!((a - b).abs() < DELTA, "{} != {}", a, b);
}

fn codes(vals: &[f64]) -> Vec<u64> {
    let mut out: Vec<u64> = Vec::new();
    for v in vals {
        out.push(v.to_bits());
    }
    out
}

fn val(code: u64) -> f64 {
    f64::from_bits(code)
}

#[test]
fn test_ingest_and_query_all_tiers() {
    let mut service = TradingDataService::new();
    let r = service.add_batch_values("AAPL".to_string(), codes(&[1.0, 2.0, 3.0]));
    assert!(r.is_ok());

    for k in 1..=8 {
        let stats = service.get_stats("AAPL".to_string(), k).unwrap();
        assert_float_eq(1.0, val(stats.min));
        assert_float_eq(3.0, val(stats.max));
        assert_float_eq(3.0, val(stats.last));
        assert_float_eq(2.0, val(stats.avg));
        assert_float_eq(0.6666667, val(stats.var));
    }
}

#[test]
fn test_tier_one_evicts_while_higher_tiers_keep_all() {
    let mut service = TradingDataService::new();
    let mut vals: Vec<f64> = Vec::new();
    for i in 0..12 {
        vals.push(i as f64);
    }
    service.add_batch_values("MSFT".to_string(), codes(&vals)).unwrap();

    // tier 1 retains the 10 most recent samples: 2..=11
    let tier1 = service.get_stats("MSFT".to_string(), 1).unwrap();
    assert_float_eq(2.0, val(tier1.min));
    assert_float_eq(11.0, val(tier1.max));
    assert_float_eq(11.0, val(tier1.last));
    assert_float_eq(6.5, val(tier1.avg));

    // tier 2 retains all 12
    let tier2 = service.get_stats("MSFT".to_string(), 2).unwrap();
    assert_float_eq(0.0, val(tier2.min));
    assert_float_eq(11.0, val(tier2.max));
    assert_float_eq(5.5, val(tier2.avg));
}

#[test]
fn test_batch_too_large_leaves_registry_unchanged() {
    let mut service = TradingDataService::new();
    service.add_batch_values("AAPL".to_string(), codes(&[4.0, 8.0])).unwrap();
    let before = service.get_stats("AAPL".to_string(), 3).unwrap();

    let oversized: Vec<u64> = codes(&vec![1.0; 10001]);
    let r = service.add_batch_values("AAPL".to_string(), oversized);
    assert_eq!(r, Err(TradingError::BatchTooLarge));

    let after = service.get_stats("AAPL".to_string(), 3).unwrap();
    assert_eq!(before, after);

    // an oversized batch creates no entry for a new symbol either
    let r2 = service.add_batch_values("NEW".to_string(), codes(&vec![1.0; 10001]));
    assert_eq!(r2, Err(TradingError::BatchTooLarge));
    assert_eq!(
        service.get_stats("NEW".to_string(), 1),
        Err(TradingError::SymbolNotFound)
    );
}

#[test]
fn test_batch_at_cap_is_accepted() {
    let mut service = TradingDataService::new();
    let mut vals: Vec<f64> = Vec::new();
    for i in 0..10000 {
        vals.push(i as f64);
    }
    let r = service.add_batch_values("AAPL".to_string(), codes(&vals));
    assert!(r.is_ok());

    let tier1 = service.get_stats("AAPL".to_string(), 1).unwrap();
    assert_float_eq(9990.0, val(tier1.min));
    assert_float_eq(9999.0, val(tier1.max));
    assert_float_eq(9999.0, val(tier1.last));
    assert_float_eq(9994.5, val(tier1.avg));

    let tier5 = service.get_stats("AAPL".to_string(), 5).unwrap();
    assert_float_eq(0.0, val(tier5.min));
    assert_float_eq(4999.5, val(tier5.avg));
}

#[test]
fn test_invalid_tier() {
    let mut service = TradingDataService::new();
    service.add_batch_values("AAPL".to_string(), codes(&[1.0])).unwrap();

    assert_eq!(
        service.get_stats("AAPL".to_string(), 0),
        Err(TradingError::InvalidTier)
    );
    assert_eq!(
        service.get_stats("AAPL".to_string(), 9),
        Err(TradingError::InvalidTier)
    );
}

#[test]
fn test_symbol_not_found() {
    let mut service = TradingDataService::new();
    service.add_batch_values("AAPL".to_string(), codes(&[1.0])).unwrap();

    assert_eq!(
        service.get_stats("GOOG".to_string(), 1),
        Err(TradingError::SymbolNotFound)
    );
}

#[test]
fn test_symbols_are_independent() {
    let mut service = TradingDataService::new();
    service.add_batch_values("AAPL".to_string(), codes(&[1.0, 2.0])).unwrap();
    service.add_batch_values("GOOG".to_string(), codes(&[10.0, 20.0])).unwrap();
    service.add_batch_values("AAPL".to_string(), codes(&[3.0])).unwrap();

    let aapl = service.get_stats("AAPL".to_string(), 2).unwrap();
    assert_float_eq(2.0, val(aapl.avg));
    assert_float_eq(3.0, val(aapl.last));

    let goog = service.get_stats("GOOG".to_string(), 2).unwrap();
    assert_float_eq(15.0, val(goog.avg));
    assert_float_eq(20.0, val(goog.last));
}
