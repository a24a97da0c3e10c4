//! Floating-point numbers, held against those of the language.
use hls_checks::double::Double;
use hls_checks::natural::Natural;
use hls_checks::numeral::read_number;
use hls_checks::types::{MediaPlaylist, Segment};
use hls_checks::{
    check_cumulative_drift, check_duration_drift, check_target_duration_compliance,
    check_targetduration_consistency, check_version_compatibility, durations_in_range,
};

fn double(x: f64) -> Double {
    Double::from_bits(x.to_bits())
}

fn float(x: Double) -> f64 {
    f64::from_bits(x.bits)
}

/// Whether two numbers are the same, signs of zeros included.
fn same(x: f64, y: f64) -> bool {
    x.is_nan() && y.is_nan() || x.to_bits() == y.to_bits()
}

/// Numbers of all kinds: small and large, exact and not, at the edges of what
/// can be held.
fn samples() -> Vec<f64> {
    let mut list = vec![
        0.0,
        1.0,
        2.0,
        3.0,
        0.1,
        0.2,
        0.3,
        0.499_999_999_999_999_94,
        0.5,
        1.5,
        2.5,
        0.0005,
        0.001,
        1.1,
        4.2,
        4.005,
        6.499_999_999,
        11.999,
        12.4,
        1_700_000_000.25,
        1e15,
        9_007_199_254_740_993.0,
        1.8446744073709552e19,
        1e22,
        1e-7,
        f64::MAX,
        f64::MIN_POSITIVE,
        f64::EPSILON,
        5e-324,
        1.5e-323,
        2.2250738585072009e-308,
        f64::INFINITY,
        f64::NAN,
    ];
    let mut state: u64 = 0x9e37_79b9_7f4a_7c15;
    for _ in 0..12 {
        state = state.wrapping_mul(6_364_136_223_846_793_005).wrapping_add(1_442_695_040_888_963_407);
        list.push(f64::from_bits(state % 0x8000_0000_0000_0000));
        list.push((state >> 40) as f64 / 1000.0);
    }
    let negative: Vec<f64> = list.iter().map(|x| -x).collect();
    list.extend(negative);
    list
}

#[test]
fn sums_and_differences_are_rounded_alike() {
    let list = samples();
    for &x in &list {
        for &y in list.iter().step_by(5) {
            let sum = float(double(x).plus(double(y)));
            assert!(same(sum, x + y), "{x:?} + {y:?}: {sum:?}");
            let difference = float(double(y).minus(double(x)));
            assert!(same(difference, y - x), "{y:?} - {x:?}: {difference:?}");
        }
        assert!(same(float(double(x).minus(double(x))), x - x));
    }
}

#[test]
fn quotients_are_rounded_alike() {
    let list = samples();
    for &x in &list {
        for &y in list.iter().step_by(13) {
            let q = float(double(x).quotient(double(y)));
            assert!(same(q, x / y), "{x:?} / {y:?}: {q:?}");
        }
        let q = float(double(x).quotient(double(1000.0)));
        assert!(same(q, x / 1000.0), "{x:?} / 1000: {q:?}");
    }
}

#[test]
fn multiples_are_rounded_alike() {
    for x in samples() {
        for m in [2u32, 3, 6] {
            let p = float(double(x).multiple(m));
            assert!(same(p, x * m as f64), "{x:?} * {m}: {p:?}");
        }
        assert!(same(float(double(x).negated()), -x));
        assert!(same(float(double(x).absolute()), x.abs()));
    }
}

#[test]
fn comparisons_are_alike() {
    let list = samples();
    for &x in &list {
        assert_eq!(double(x).is_nan(), x.is_nan());
        assert_eq!(double(x).is_positive(), x > 0.0);
        for &y in &list {
            assert_eq!(double(x).less(double(y)), x < y, "{x:?} < {y:?}");
            let high = float(double(x).greater_of(double(y)));
            assert!(high == x.max(y) || high.is_nan() && x.max(y).is_nan());
            let low = float(double(x).lesser_of(double(y)));
            assert!(low == x.min(y) || low.is_nan() && x.min(y).is_nan());
        }
    }
}

#[test]
fn whole_numbers_are_alike() {
    for x in samples() {
        assert_eq!(double(x).whole(), x as u64, "{x:?}");
        assert_eq!(double(x).rounded(), x.round() as u64, "{x:?}");
        assert_eq!(double(x).has_fraction(), x.fract() != 0.0, "{x:?}");
    }
}

#[test]
fn decimals_are_written_alike() {
    for x in samples() {
        assert_eq!(double(x).fixed(0), format!("{x:.0}"));
        assert_eq!(double(x).fixed(2), format!("{x:.2}"));
        assert_eq!(double(x).fixed(3), format!("{x:.3}"));
        assert_eq!(double(x).fixed(5), format!("{x:.5}"));
        assert_eq!(double(x).fixed(6), format!("{x:.6}"));
        assert_eq!(double(x).fixed(9), format!("{x:.9}"));
    }
}

#[test]
fn decimals_are_read_alike() {
    let mut texts: Vec<String> = [
        "0", "-0", "+7", ".5", "5.", "-.5e+3", "1e3", "1E-3", "0.1", "1.1", "0.0005", "30.033333",
        "inf", "-Infinity", "NaN", "1e308", "1.7976931348623157e308", "1.7976931348623159e308",
        "1e309", "-1e999999999999999999999999", "1e-323", "2.4703282292062327e-324",
        "2.4703282292062328e-324", "1e-400", "1e-99999999999999999999", "0e99999999999999999999",
        "9007199254740993", "9007199254740993.00000000000000000000000001",
        "9007199254740992.99999999999999999999999999", "2.2250738585072011e-308",
        "000000000000000000000000000000000000000012.5", "123456789012345678901234567890e-20",
        "", "+", "-", ".", "e5", "1e", "1e+", "1.2.3", "0x10", "1_000", " 1", "1 ", "infinit", "--1",
    ]
    .iter()
    .map(|t| t.to_string())
    .collect();
    texts.push(format!("0.{}1e420", "0".repeat(418)));
    texts.push(format!("1{}e-420", "0".repeat(421)));
    for x in samples().into_iter().step_by(3) {
        texts.push(format!("{x}"));
        texts.push(format!("{x:e}"));
        texts.push(format!("{x:.4}"));
    }
    for text in texts {
        let expected = text.parse::<f64>().ok();
        let found = read_number(Some(text.clone())).map(float);
        match (expected, found) {
            (Some(x), Some(y)) => assert!(same(x, y), "{text}: {x:e}, {y:e}"),
            (None, None) => {}
            _ => panic!("{text}: {expected:?}, {found:?}"),
        }
    }
    assert!(read_number(None).is_none());
}

#[test]
fn numbers_of_many_digits_are_read_alike() {
    let long = "3141592653".repeat(5_000);
    let texts = [
        long.clone(),
        format!("0.{long}"),
        format!("-{long}e-49998"),
        format!("{}7.25", "0".repeat(50_000)),
        format!("12{}e-50000", "0".repeat(50_000)),
        format!("0.{}1e50001", "0".repeat(50_000)),
        format!("1.5e{}3", "0".repeat(50_000)),
        format!("9007199254740993.{}1", "0".repeat(50_000)),
    ];
    for text in texts {
        let expected: f64 = text.parse().unwrap();
        let found = float(read_number(Some(text)).unwrap());
        assert!(same(expected, found), "{expected:e}, {found:e}");
    }
}

#[test]
fn natural_numbers_of_many_digits_are_written_out() {
    let mut n = Natural::from_u64(7);
    for _ in 0..5_000 {
        n = n.times_plus(1_000_000_000, 123_456_789).plus(&Natural::from_u64(1));
    }
    let mut expected = "7".to_string();
    for _ in 0..5_000 {
        expected.push_str("123456790");
    }
    assert_eq!(n.text(), expected);
    assert!(n.minus(&n).is_zero());
    assert_eq!(n.minus(&n).text(), "0");
}

#[test]
fn natural_numbers_grow_and_shrink() {
    let a = Natural::from_u64(u64::MAX);
    let b = a.plus(&Natural::from_u64(1));
    assert_eq!(b.text(), "18446744073709551616");
    assert_eq!(b.minus(&a).to_u64(), 1);
    assert_eq!(b.to_u64(), u64::MAX);
    assert_eq!(a.to_u64(), u64::MAX);
    let c = Natural::from_u64(1).shifted(100);
    assert_eq!(c.text(), "1267650600228229401496703205376");
    let (q, r) = c.plus(&Natural::from_u64(5)).div_rem(&b);
    assert_eq!(q.text(), "68719476736");
    assert_eq!(r.to_u64(), 5);
    let (q, r) = c.div_small(7);
    assert_eq!(q.times(7).plus(&Natural::from_u64(r as u64)).text(), c.text());
    assert!(a.less(&b) && !b.less(&a) && !b.less(&b));
    assert!(Natural::from_u64(0).is_zero() && !c.is_zero());
}

// ── Checks at the edges of what can be held ──────────────────────────────────

fn playlist(name: &str, durations: &[f64]) -> MediaPlaylist {
    let mut pl = MediaPlaylist::new(name.to_string(), String::new());
    for d in durations {
        pl.segments.push(Segment {
            uri: "s".to_string(),
            duration: double(*d),
            title: None,
            pdt: None,
            discontinuity: false,
            byterange: None,
            is_ad: false,
            map_uri: None,
        });
    }
    pl
}

#[test]
fn a_difference_a_little_above_the_tolerance_is_drift() {
    let pls = [playlist("a", &[1.1]), playlist("b", &[1.0])];
    let issues = check_duration_drift(&pls, double(100.0));
    assert_eq!(
        issues[0].message,
        "EXTINF drift at MSN 0: 'a' has 1.100s vs 'b' has 1.000s (diff=0.100s, tolerance=0.100s)."
    );
    assert!(check_duration_drift(&pls, double(100.001)).is_empty());
    assert_eq!(check_cumulative_drift(&pls, double(100.0)).len(), 1);
}

#[test]
fn nothing_exceeds_what_is_not_a_number() {
    let pls = [playlist("a", &[4.0, f64::NAN]), playlist("b", &[9.0, 4.0])];
    assert!(check_duration_drift(&pls, double(f64::NAN)).is_empty());
    assert_eq!(check_duration_drift(&pls, double(0.0)).len(), 1);
    assert!(check_cumulative_drift(&pls, double(0.0)).is_empty());
    assert_eq!(check_duration_drift(&pls, double(f64::NEG_INFINITY)).len(), 1);
}

#[test]
fn totals_are_added_from_the_first_segment_on() {
    let durations: Vec<f64> = (0..50).map(|i| 4.0 + i as f64 * 0.001).collect();
    let total: f64 = durations.iter().sum();
    let pls = [playlist("a", &durations), playlist("b", &vec![1e9; 50])];
    let issues = check_cumulative_drift(&pls, double(0.0));
    assert!(issues[0].message.ends_with(&format!("Totals: a={total:.3}s, b=50000000000.000s")));
    let pls = [playlist("a", &[1e16, 1.0, 1.0]), playlist("b", &[1.0, 1.0, 1e16])];
    let issues = check_cumulative_drift(&pls, double(0.0));
    assert!(issues[0].message.contains("a=10000000000000000.000s, b=10000000000000002.000s"));
}

#[test]
fn an_infinite_duration_is_too_long_for_its_playlist() {
    let mut pl = playlist("v", &[f64::INFINITY]);
    pl.version = 2;
    assert!(check_version_compatibility(&[pl.clone()])[0].message.contains("EXTINF (infs)"));
    assert!(durations_in_range(&[pl.clone()]));
    assert_eq!(check_target_duration_compliance(&[pl.clone()]).len(), 1);
    pl.target_duration = double(6.0);
    assert!(!durations_in_range(&[pl]));
}

#[test]
fn a_target_that_is_not_a_number_is_not_missing() {
    let mut pl = playlist("v", &[4.0]);
    pl.target_duration = double(f64::NAN);
    let issues = check_target_duration_compliance(&[pl.clone()]);
    assert_eq!(issues.len(), 1);
    assert!(issues[0].message.contains("exceeds TARGETDURATION 0s"));
    let mut other = playlist("w", &[]);
    other.target_duration = double(6.0);
    assert!(check_targetduration_consistency(&[pl, other]).is_empty());
}
