use lambda_pong::clni::clni_to_int;
use lambda_pong::clni_laws::encode_clni;

#[test]
fn clni_round_trip_small_range() {
    for n in -5..=5 {
        assert_eq!(clni_to_int(&encode_clni(n)), Ok(n));
    }
}

#[test]
fn clni_round_trip_larger_values() {
    for n in [-100, -37, 17, 256, 1000] {
        assert_eq!(clni_to_int(&encode_clni(n)), Ok(n));
    }
}

#[test]
fn encode_clni_canonical_forms() {
    assert_eq!(encode_clni(0), "(\\x. x)");
    assert_eq!(encode_clni(1), "(\\x u. u x)");
    assert_eq!(encode_clni(3), "(\\x u. u (\\u. u (\\u. u x)))");
    assert_eq!(encode_clni(-1), "(\\x. x (\\u. u))");
    assert_eq!(encode_clni(-2), "(\\x. x (\\u. u) (\\u. u))");
}
