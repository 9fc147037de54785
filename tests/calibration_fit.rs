use linregress::{FormulaRegressionBuilder, RegressionDataBuilder};
use tlc::calibration::reference_signals;

/// Least-squares line through the reference spots: `(slope, intercept)`.
fn fit(signals: &Vec<(u32, u64)>, references: &[(u32, f64)]) -> (f64, f64) {
    let ids: Vec<u32> = references.iter().map(|r| r.0).collect();
    let xs = reference_signals(signals, &ids).unwrap();
    let data = vec![
        ("Y", references.iter().map(|r| r.1).collect::<Vec<f64>>()),
        ("X", xs.iter().map(|x| *x as f64).collect::<Vec<f64>>()),
    ];
    let reg = RegressionDataBuilder::new().build_from(data).unwrap();
    let fitted = FormulaRegressionBuilder::new()
        .data(&reg)
        .formula("Y ~ X")
        .fit_without_statistics()
        .unwrap();
    (fitted[1], fitted[0])
}

#[test]
fn calibration_matches_reference_example() {
    let signals = vec![(0u32, 584007u64), (1, 522476), (2, 627150), (3, 935728)];
    let (m, b) = fit(&signals, &[(0, 80.0), (3, 110.0)]);
    assert!((m - 8.529487861117192e-05).abs() < 1e-9);
    assert!((b - 30.187193826925323).abs() < 1e-3);
    let expected = [(0u32, 80.0), (1, 74.75), (2, 83.67), (3, 110.0)];
    for (k, p) in expected.iter() {
        let s = signals.iter().find(|e| e.0 == *k).unwrap().1 as f64;
        assert!((s * m + b - p).abs() < 1.0);
    }
}

#[test]
fn calibration_recovers_linear_relation() {
    let signals = vec![(4u32, 100u64), (7, 200), (9, 300), (11, 400), (12, 1000)];
    let relation = |s: f64| 0.05 * s + 10.0;
    let refs: Vec<(u32, f64)> =
        vec![(4, relation(100.0)), (9, relation(300.0)), (11, relation(400.0))];
    let (m, b) = fit(&signals, &refs);
    assert!((m - 0.05).abs() < 1e-9);
    assert!((b - 10.0).abs() < 1e-6);
    for (_, s) in signals.iter() {
        let s = *s as f64;
        assert!((s * m + b - relation(s)).abs() < 1e-6);
    }
}

#[test]
fn calibration_needs_every_reference_signal() {
    let signals = vec![(0u32, 10u64)];
    assert!(reference_signals(&signals, &vec![0, 1]).is_none());
}
