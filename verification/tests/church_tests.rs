use lambda_pong::church::parse_church_bool;
use lambda_pong::errors::DecodeError;

#[test]
fn church_bool_true1() {
    assert_eq!(parse_church_bool("(\\x y. x)"), Ok(true));
}

#[test]
fn church_bool_true2() {
    assert_eq!(parse_church_bool("(\\apple orange. apple)"), Ok(true));
}

#[test]
fn church_bool_true3() {
    assert_eq!(parse_church_bool("(\\x1 y1. x1)"), Ok(true));
}

#[test]
fn church_bool_false1() {
    assert_eq!(parse_church_bool("(\\x y. y)"), Ok(false));
}

#[test]
fn church_bool_false2() {
    assert_eq!(parse_church_bool("(\\blue green. green)"), Ok(false));
}

#[test]
fn church_bool_false3() {
    assert_eq!(parse_church_bool("(\\x2 y2. y2)"), Ok(false));
}

#[test]
fn church_bool_invalid1() {
    if let Ok(_) = parse_church_bool("\\x y z. y") {
        panic!("parse_church_bool should have returned Err");
    }
}

#[test]
fn church_bool_invalid2() {
    if let Ok(_) = parse_church_bool("\\y. y") {
        panic!("parse_church_bool should have returned Err");
    }
}

#[test]
fn church_bool_invalid3() {
    if let Ok(_) = parse_church_bool("\\a b. c") {
        panic!("parse_church_bool should have returned Err");
    }
}

#[test]
fn church_bool_missing_separator() {
    assert_eq!(parse_church_bool("(\\x. x)"), Err(DecodeError::MissingSeparator));
}

#[test]
fn church_bool_missing_dot() {
    assert_eq!(parse_church_bool("(\\x y z. x)"), Err(DecodeError::MissingDot));
}

#[test]
fn church_bool_body_mismatch() {
    assert_eq!(parse_church_bool("(\\a b. c)"), Err(DecodeError::BodyMismatch));
}

#[test]
fn church_bool_unterminated_variable() {
    assert_eq!(parse_church_bool("(\\xyz"), Err(DecodeError::UnterminatedTerm));
}

#[test]
fn church_bool_no_lambda() {
    assert_eq!(parse_church_bool("(x y)"), Err(DecodeError::NoLambdaSymbol));
}
