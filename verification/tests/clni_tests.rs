use lambda_pong::clni::clni_prefix_to_int;
use lambda_pong::clni::clni_to_int;
use lambda_pong::errors::DecodeError;

#[test]
fn clni_test_pos1() {
    let (num, _) = clni_prefix_to_int("(\\x u. u (\\u1. u1 (\\u2. u2 x)))").unwrap();
    assert_eq!(num, 3);
}

#[test]
fn clni_test_pos2() {
    let (num, _) = clni_prefix_to_int("(\\x u. u x)").unwrap();
    assert_eq!(num, 1);
}

#[test]
fn clni_test_zero() {
    let (num, _) = clni_prefix_to_int("(\\x. x)").unwrap();
    assert_eq!(num, 0);
}

#[test]
fn clni_test_neg1() {
    let (num, _) = clni_prefix_to_int("(\\x. x (\\u. u))").unwrap();
    assert_eq!(num, -1);
}

#[test]
fn clni_test_neg2() {
    let (num, _) = clni_prefix_to_int("(\\x. x (\\u. u) (\\u. u))").unwrap();
    assert_eq!(num, -2);
}

#[test]
fn clni_leaves_remainder() {
    let (num, rest) = clni_prefix_to_int("(\\x u. u x) and more").unwrap();
    assert_eq!(num, 1);
    assert_eq!(rest, " and more");
}

#[test]
fn clni_empty_term() {
    assert_eq!(clni_to_int(""), Err(DecodeError::EmptyTerm));
}

#[test]
fn clni_missing_open_paren() {
    assert_eq!(clni_to_int("\\x. x"), Err(DecodeError::MissingOpenParen));
}

#[test]
fn clni_no_lambda_symbol() {
    assert_eq!(clni_to_int("(abc)"), Err(DecodeError::NoLambdaSymbol));
}

#[test]
fn clni_unterminated_binder_list() {
    assert_eq!(clni_to_int("(\\xy"), Err(DecodeError::UnterminatedBinderList));
}

#[test]
fn clni_unterminated_term() {
    assert_eq!(clni_to_int("(\\x. x"), Err(DecodeError::UnterminatedTerm));
}
