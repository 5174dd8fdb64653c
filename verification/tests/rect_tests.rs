use lambda_pong::clni_laws::encode_clni;
use lambda_pong::errors::DecodeError;
use lambda_pong::rects::parse_rect;
use lambda_pong::rects::parse_rect_list;
use lambda_pong::rects::Rect;

#[test]
fn test_rect1() {
    let s = "(\\f. f (\\x u. u x) (\\x1 u1. u1 (\\u2. u2 (\\u3. u3 x1))) (\\x2 u4. u4 (\\u5. u5 x2)) (\\x3 u6. u6 (\\u7. u7 (\\u8. u8 (\\u9. u9 (\\u10. u10 x3))))))";
    let (rect, _) = parse_rect(s, 1, 0, 0).unwrap();
    assert_eq!(rect, Rect::new(1, 3, 2, 5));
}

#[test]
fn test_rect2() {
    let s = "(\\f. f (\\x. x) (\\x1. x1) (\\x2 u. u (\\u1. u1 (\\u2. u2 (\\u3. u3 x2)))) (\\x3 u4. u4 (\\u5. u5 (\\u6. u6 (\\u7. u7 (\\u8. u8 (\\u9. u9 (\\u10. u10 x3))))))))";
    let (rect, _) = parse_rect(s, 1, 0, 0).unwrap();
    assert_eq!(rect, Rect::new(0, 0, 4, 7));
}

#[test]
fn test_rect_list1() {
    let s = "(\\z. z (\\f. f (\\x. x) (\\x1. x1) (\\x2 u. u (\\u1. u1 (\\u2. u2 (\\u3. u3 x2)))) (\\x3 u4. u4 (\\u5. u5 (\\u6. u6 (\\u7. u7 (\\u8. u8 (\\u9. u9 (\\u10. u10 x3)))))))) (\\z1. z1 (\\f1. f1 (\\x4 u11. u11 (\\u12. u12 (\\u13. u13 (\\u14. u14 (\\u15. u15 (\\u16. u16 (\\u17. u17 (\\u18. u18 x4)))))))) (\\x5 u19. u19 (\\u20. u20 (\\u21. u21 (\\u22. u22 (\\u23. u23 (\\u24. u24 (\\u25. u25 x5))))))) (\\x6 u26. u26 (\\u27. u27 (\\u28. u28 x6))) (\\x7 u29. u29 (\\u30. u30 x7))) nil))";
    let mut expected = Vec::new();
    let rect1 = Rect::new(0, 0, 4, 7);
    let rect2 = Rect::new(8, 7, 3, 2);
    expected.push(rect2);
    expected.push(rect1);
    assert_eq!(parse_rect_list(s, 1, 0, 0), Ok(expected));
}

#[test]
fn test_rect_list2() {
    let s = "(\\z. z (\\f. f (\\x u. u x) (\\x1. x1) (\\x2 u1. u1 (\\u2. u2 x2)) (\\x3 u3. u3 (\\u4. u4 (\\u5. u5 (\\u6. u6 (\\u7. u7 x3)))))) (\\z1. z1 (\\f1. f1 (\\x4 u8. u8 (\\u9. u9 (\\u10. u10 (\\u11. u11 x4)))) (\\x5 u12. u12 (\\u13. u13 (\\u14. u14 x5))) (\\x6 u15. u15 x6) (\\x7 u16. u16 (\\u17. u17 (\\u18. u18 (\\u19. u19 (\\u20. u20 (\\u21. u21 x7))))))) (\\z2. z2 (\\f2. f2 (\\x8. x8) (\\x9 u22. u22 (\\u23. u23 (\\u24. u24 x9))) (\\x10 u25. u25 (\\u26. u26 (\\u27. u27 (\\u28. u28 (\\u29. u29 (\\u30. u30 (\\u31. u31 x10))))))) (\\x11 u32. u32 (\\u33. u33 (\\u34. u34 (\\u35. u35 (\\u36. u36 (\\u37. u37 (\\u38. u38 (\\u39. u39 (\\u40. u40 x11)))))))))) nil)))";

    let rect1 = Rect::new(1, 0, 2, 5);
    let rect2 = Rect::new(4, 3, 1, 6);
    let rect3 = Rect::new(0, 3, 7, 9);

    let mut expected = Vec::new();
    expected.push(rect3);
    expected.push(rect2);
    expected.push(rect1);
    assert_eq!(parse_rect_list(s, 1, 0, 0), Ok(expected));
}

#[test]
fn rect_list_nil_is_empty() {
    assert_eq!(parse_rect_list("nil", 1, 0, 0), Ok(Vec::new()));
}

#[test]
fn rect_list_false_is_empty() {
    assert_eq!(parse_rect_list("false", 3, 7, 9), Ok(Vec::new()));
}

#[test]
fn rect_list_church_false_is_empty() {
    assert_eq!(parse_rect_list("(\\x y. y)", 1, 0, 0), Ok(Vec::new()));
}

#[test]
fn rect_scale_and_offsets() {
    // The tuple of test_rect1, (1, 3, 2, 5), under scale 2 and offsets
    // (10, 20): coordinates are scaled then offset, dimensions only scaled.
    let s = "(\\f. f (\\x u. u x) (\\x1 u1. u1 (\\u2. u2 (\\u3. u3 x1))) (\\x2 u4. u4 (\\u5. u5 x2)) (\\x3 u6. u6 (\\u7. u7 (\\u8. u8 (\\u9. u9 (\\u10. u10 x3))))))";
    let (rect, _) = parse_rect(s, 2, 10, 20).unwrap();
    assert_eq!(rect, Rect::new(12, 26, 4, 10));
}

#[test]
fn rect_negative_coordinates() {
    let s = format!(
        "(\\f. f {} {} {} {})",
        encode_clni(-1),
        encode_clni(2),
        encode_clni(3),
        encode_clni(4)
    );
    let (rect, _) = parse_rect(&s, 1, 0, 0).unwrap();
    assert_eq!(rect, Rect::new(-1, 2, 3, 4));
}

#[test]
fn rect_list_missing_open_paren() {
    assert_eq!(parse_rect_list("x", 1, 0, 0), Err(DecodeError::MissingOpenParen));
}

#[test]
fn rect_missing_second_paren() {
    assert_eq!(parse_rect("(abc", 1, 0, 0), Err(DecodeError::MissingSecondParen));
}

#[test]
fn rect_empty_term() {
    assert_eq!(parse_rect("", 1, 0, 0), Err(DecodeError::EmptyTerm));
}
