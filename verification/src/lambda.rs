//! The game-state adapter: the pure state and decisions of the bridge
//! between the game loop and the external lambda-calculus interpreter.
//!
//! The interpreter is a subprocess spoken to over one ordered, synchronous
//! line channel.  Everything that touches the operating system — spawning,
//! pipes, sleeping — stays with the unverified caller; this module holds the
//! state the adapter keeps, the exact request lines it sends, how responses
//! are decoded into the state, and the decision the read-retry loop takes at
//! each poll (`classify_read`).
//!
//! Bootstrap expects the caller to have streamed the lambda source file into
//! the interpreter, then queried, in order: `scalingFactor`, `xOffset`,
//! `yOffset` (CLNI integers) and `initState` (kept as a raw term).  Each
//! frame then asks `gameOver <state>`, `nextState <state> <input>` and
//! `getScreenRects <state>`; the state term is replaced wholesale by each
//! `nextState` response and never inspected.

use vstd::prelude::*;
use vstd::string::StringExecFns;

use crate::church::church_bool_spec;
use crate::church::parse_church_bool;
use crate::clni::clni_int_spec;
use crate::clni::clni_to_int;
use crate::clni::MAX_TERM_LEN;
use crate::errors::DecodeError;
use crate::errors::TransportError;
use crate::rects::rect_list_spec;
use crate::rects::parse_rect_list;
use crate::rects::Rect;

verus! {

/// One frame's worth of player input.
#[derive(Debug, Clone, Copy, PartialEq, Eq, Structural)]
pub enum UserInput {
    Up,
    Down,
    Nothing,
}

/// The protocol token each input maps to.
pub open spec fn input_token(input: UserInput) -> Seq<char> {
    match input {
        UserInput::Up => "up"@,
        UserInput::Down => "down"@,
        UserInput::Nothing => "none"@,
    }
}

/// The literal token sent for an input: `up`, `down` or `none`.
pub fn input_token_str(input: &UserInput) -> (r: &'static str)
    ensures
        r@ == input_token(*input),
{
    match input {
        UserInput::Up => "up",
        UserInput::Down => "down",
        UserInput::Nothing => "none",
    }
}

/// The decision the transport takes after one pipe read attempt while a
/// request is pending.
#[derive(Debug, PartialEq, Eq)]
pub enum ReadPoll {
    /// A line arrived; hand it to the caller.
    Ready,
    /// Nothing yet and the process lives: sleep briefly and read again.
    Sleep,
    /// The process is gone; give up with the error to report.
    Abort(TransportError),
}

/// Classify one read attempt.  A read of zero bytes alone is ambiguous
/// between "not ready yet" and "process exited"; liveness decides.  When
/// the process has exited, the error carries the pending request verbatim.
pub fn classify_read(bytes_read: usize, process_exited: bool, pending_request: &str) -> (r:
    ReadPoll)
    ensures
        bytes_read > 0 ==> r == ReadPoll::Ready,
        bytes_read == 0 && !process_exited ==> r == ReadPoll::Sleep,
        bytes_read == 0 && process_exited ==> (r matches ReadPoll::Abort(e) && e matches
            TransportError::ProcessTerminated { pending } && pending@ == pending_request@),
{
    if bytes_read > 0 {
        ReadPoll::Ready
    } else if process_exited {
        ReadPoll::Abort(
            TransportError::ProcessTerminated { pending: String::from_str(pending_request) },
        )
    } else {
        ReadPoll::Sleep
    }
}

/// `s` with every newline removed.
pub open spec fn without_newlines(s: Seq<char>) -> Seq<char> {
    s.filter(|c: char| c != '\n')
}

/// Strip the newlines from a response line, as the transport does before
/// handing it on.
pub fn strip_newlines(s: &str) -> (r: String)
    ensures
        r@ == without_newlines(s@),
{
    let n = s.unicode_len();
    let mut r = String::new();
    let mut i: usize = 0;
    proof {
        reveal(Seq::filter);
        assert(s@.subrange(0, 0) =~= Seq::<char>::empty());
    }
    while i < n
        invariant
            0 <= i <= n,
            n == s@.len(),
            r@ == without_newlines(s@.subrange(0, i as int)),
        decreases n - i,
    {
        let c = s.get_char(i);
        if c != '\n' {
            r.append(s.substring_char(i, i + 1));
        }
        proof {
            reveal(Seq::filter);
            assert(s@.subrange(0, i + 1 as int).drop_last() =~= s@.subrange(0, i as int));
            assert(s@.subrange(0, i + 1 as int).last() == s@[i as int]);
            assert(s@.subrange(i as int, i + 1 as int) =~= seq![s@[i as int]]);
        }
        i = i + 1;
    }
    proof {
        assert(s@.subrange(0, n as int) =~= s@);
    }
    r
}

/// The adapter's state: the immutable scale/offset triple read at
/// bootstrap, and the current game-state term, replaced wholesale on every
/// update.
#[derive(Debug)]
pub struct State {
    pub scaling_factor: i32,
    pub x_offset: i32,
    pub y_offset: i32,
    pub state: String,
}

impl State {
    /// Build the adapter state from the four bootstrap responses: the
    /// `scalingFactor`, `xOffset` and `yOffset` lines are decoded as CLNI
    /// integers (the first failure, in that order, is returned), and the
    /// `initState` line is kept as an opaque term.
    pub fn new(
        scaling_factor_resp: &str,
        x_offset_resp: &str,
        y_offset_resp: &str,
        init_state: String,
    ) -> (r: Result<State, DecodeError>)
        requires
            scaling_factor_resp@.len() <= MAX_TERM_LEN,
            x_offset_resp@.len() <= MAX_TERM_LEN,
            y_offset_resp@.len() <= MAX_TERM_LEN,
        ensures
            match r {
                Ok(st) => clni_int_spec(scaling_factor_resp@) == Ok::<int, DecodeError>(
                    st.scaling_factor as int,
                ) && clni_int_spec(x_offset_resp@) == Ok::<int, DecodeError>(st.x_offset as int)
                    && clni_int_spec(y_offset_resp@) == Ok::<int, DecodeError>(
                    st.y_offset as int,
                ) && st.state == init_state,
                Err(e) => clni_int_spec(scaling_factor_resp@) == Err::<int, DecodeError>(e) || (
                clni_int_spec(scaling_factor_resp@) is Ok && clni_int_spec(x_offset_resp@)
                    == Err::<int, DecodeError>(e)) || (clni_int_spec(scaling_factor_resp@) is Ok
                    && clni_int_spec(x_offset_resp@) is Ok && clni_int_spec(y_offset_resp@)
                    == Err::<int, DecodeError>(e)),
            },
    {
        let scaling_factor = match clni_to_int(scaling_factor_resp) {
            Ok(v) => v,
            Err(e) => {
                return Err(e);
            },
        };
        let x_offset = match clni_to_int(x_offset_resp) {
            Ok(v) => v,
            Err(e) => {
                return Err(e);
            },
        };
        let y_offset = match clni_to_int(y_offset_resp) {
            Ok(v) => v,
            Err(e) => {
                return Err(e);
            },
        };
        Ok(State { scaling_factor, x_offset, y_offset, state: init_state })
    }

    /// The request line that asks whether the game is over.
    pub fn game_over_request(&self) -> (r: String)
        ensures
            r@ == "gameOver "@ + self.state@,
    {
        let mut r = String::from_str("gameOver ");
        r.append(self.state.as_str());
        r
    }

    /// Decode a `gameOver` response as a Church boolean.
    pub fn decode_game_over(&self, response: &str) -> (r: Result<bool, DecodeError>)
        ensures
            r == church_bool_spec(response@),
    {
        parse_church_bool(response)
    }

    /// The request line that advances the game state under the given input.
    pub fn update_request(&self, input: &UserInput) -> (r: String)
        ensures
            r@ == "nextState "@ + self.state@ + " "@ + input_token(*input),
    {
        let mut r = String::from_str("nextState ");
        r.append(self.state.as_str());
        r.append(" ");
        r.append(input_token_str(input));
        r
    }

    /// Replace the state term with a `nextState` response, wholesale; the
    /// response is never decoded, and the scale/offset triple is untouched.
    pub fn apply_update(&mut self, response: String)
        ensures
            final(self).state == response,
            final(self).scaling_factor == old(self).scaling_factor,
            final(self).x_offset == old(self).x_offset,
            final(self).y_offset == old(self).y_offset,
    {
        self.state = response;
    }

    /// The request line that asks for the rectangles to draw.
    pub fn rects_request(&self) -> (r: String)
        ensures
            r@ == "getScreenRects "@ + self.state@,
    {
        let mut r = String::from_str("getScreenRects ");
        r.append(self.state.as_str());
        r
    }

    /// Decode a `getScreenRects` response with the scale and offsets cached
    /// at bootstrap.
    pub fn decode_rects(&self, response: &str) -> (r: Result<Vec<Rect>, DecodeError>)
        requires
            response@.len() <= MAX_TERM_LEN,
        ensures
            match r {
                Ok(v) => rect_list_spec(
                    response@,
                    self.scaling_factor as int,
                    self.x_offset as int,
                    self.y_offset as int,
                ) == Ok::<Seq<Rect>, DecodeError>(v@),
                Err(e) => rect_list_spec(
                    response@,
                    self.scaling_factor as int,
                    self.x_offset as int,
                    self.y_offset as int,
                ) == Err::<Seq<Rect>, DecodeError>(e),
            },
    {
        parse_rect_list(response, self.scaling_factor, self.x_offset, self.y_offset)
    }
}

} // verus!
