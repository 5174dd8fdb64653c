use lambda_pong::clni_laws::encode_clni;
use lambda_pong::errors::DecodeError;
use lambda_pong::errors::TransportError;
use lambda_pong::lambda::classify_read;
use lambda_pong::lambda::strip_newlines;
use lambda_pong::lambda::ReadPoll;
use lambda_pong::lambda::State;
use lambda_pong::lambda::UserInput;
use lambda_pong::rects::Rect;

#[test]
fn bootstrap_decodes_the_three_integers() {
    let st = State::new(
        &encode_clni(2),
        &encode_clni(10),
        &encode_clni(20),
        String::from("initTerm"),
    )
    .unwrap();
    assert_eq!(st.scaling_factor, 2);
    assert_eq!(st.x_offset, 10);
    assert_eq!(st.y_offset, 20);
    assert_eq!(st.state, "initTerm");
}

#[test]
fn bootstrap_reports_the_first_bad_response() {
    let r = State::new("bogus", &encode_clni(0), &encode_clni(0), String::new());
    assert_eq!(r.unwrap_err(), DecodeError::MissingOpenParen);
    let r = State::new(&encode_clni(1), "(\\xy", &encode_clni(0), String::new());
    assert_eq!(r.unwrap_err(), DecodeError::UnterminatedBinderList);
}

#[test]
fn request_lines_carry_the_state_term() {
    let st = State::new(
        &encode_clni(1),
        &encode_clni(0),
        &encode_clni(0),
        String::from("(\\s. s)"),
    )
    .unwrap();
    assert_eq!(st.game_over_request(), "gameOver (\\s. s)");
    assert_eq!(st.rects_request(), "getScreenRects (\\s. s)");
    assert_eq!(st.update_request(&UserInput::Up), "nextState (\\s. s) up");
    assert_eq!(st.update_request(&UserInput::Down), "nextState (\\s. s) down");
    assert_eq!(st.update_request(&UserInput::Nothing), "nextState (\\s. s) none");
}

#[test]
fn update_replaces_the_state_wholesale() {
    let mut st = State::new(
        &encode_clni(3),
        &encode_clni(4),
        &encode_clni(5),
        String::from("first"),
    )
    .unwrap();
    st.apply_update(String::from("second"));
    assert_eq!(st.state, "second");
    assert_eq!(st.scaling_factor, 3);
    assert_eq!(st.x_offset, 4);
    assert_eq!(st.y_offset, 5);
}

#[test]
fn game_over_responses_decode_as_church_booleans() {
    let st = State::new(
        &encode_clni(1),
        &encode_clni(0),
        &encode_clni(0),
        String::new(),
    )
    .unwrap();
    assert_eq!(st.decode_game_over("(\\x y. x)"), Ok(true));
    assert_eq!(st.decode_game_over("(\\x y. y)"), Ok(false));
    assert_eq!(st.decode_game_over("(\\x. x)"), Err(DecodeError::MissingSeparator));
}

#[test]
fn rects_decode_with_the_cached_transform() {
    let st = State::new(
        &encode_clni(2),
        &encode_clni(10),
        &encode_clni(20),
        String::new(),
    )
    .unwrap();
    let s = format!(
        "(\\z. z (\\f. f {} {} {} {}) nil)",
        encode_clni(1),
        encode_clni(3),
        encode_clni(2),
        encode_clni(5)
    );
    assert_eq!(st.decode_rects(&s), Ok(vec![Rect::new(12, 26, 4, 10)]));
}

#[test]
fn read_with_data_is_ready() {
    assert_eq!(classify_read(5, false, "any"), ReadPoll::Ready);
    assert_eq!(classify_read(1, true, "any"), ReadPoll::Ready);
}

#[test]
fn read_without_data_from_a_live_process_retries() {
    assert_eq!(classify_read(0, false, "any"), ReadPoll::Sleep);
}

#[test]
fn dead_process_error_carries_the_pending_request() {
    let pending = "gameOver (\\s. s)";
    match classify_read(0, true, pending) {
        ReadPoll::Abort(TransportError::ProcessTerminated { pending: p }) => {
            assert_eq!(p, pending);
        },
        other => panic!("expected ProcessTerminated, got {:?}", other),
    }
}

#[test]
fn responses_lose_their_newlines() {
    assert_eq!(strip_newlines("(\\x. x)\n"), "(\\x. x)");
    assert_eq!(strip_newlines("a\nb\n"), "ab");
    assert_eq!(strip_newlines("plain"), "plain");
}
