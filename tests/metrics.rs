use nvdb_rs::metrics::Metric;
use nvdb_rs::score::{is_nan, rank_of};

#[test]
fn metric_names_round_trip() {
    for m in [Metric::Euclidean, Metric::Cosine, Metric::DotProduct] {
        assert_eq!(Metric::from_name(&m.name()), Some(m));
    }
    assert_eq!(Metric::Cosine.name(), "Cosine");
    assert_eq!(Metric::from_name("cosine"), None);
    assert_eq!(Metric::from_name(""), None);
}

#[test]
fn score_order_follows_float_order() {
    let vals = [f32::NEG_INFINITY, -5.196152, -1.0, -0.0, 0.0, 1e-30, 32.0, f32::INFINITY];
    for a in vals {
        for b in vals {
            let ra = rank_of(a.to_bits());
            let rb = rank_of(b.to_bits());
            assert_eq!(ra < rb, a < b);
            assert_eq!(ra == rb, a == b);
        }
    }
}

#[test]
fn nan_patterns_are_recognised() {
    assert!(is_nan(f32::NAN.to_bits()));
    assert!(is_nan((-f32::NAN).to_bits()));
    assert!(is_nan(0x7F80_0001));
    assert!(!is_nan(f32::INFINITY.to_bits()));
    assert!(!is_nan(f32::NEG_INFINITY.to_bits()));
    assert!(!is_nan(1.5f32.to_bits()));
}
