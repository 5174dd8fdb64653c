//! Decoder for CLNI, the structural encoding of a signed 32-bit integer as a
//! closed lambda term.
//!
//! The shape of the term, not a numeral, carries the value:
//!
//! - positive `n`: `(\x u. u (\u. u ... x))`, one backslash per layer — the
//!   binder list carries an extra "continuation" variable, so it contains a
//!   space;
//! - zero: `(\x. x)` — a single binder and nothing applied;
//! - negative `-m`: `(\x. x (\u. u) ... (\u. u))` — the zero shape with `m`
//!   wrapped applications, one extra backslash each.
//!
//! Decoding scans twice: once from the first `\` to the first `.` to classify
//! the sign, and once from the start, tracking parenthesis nesting while
//! counting backslashes, until the nesting closes.  The decoder consumes one
//! balanced term and hands the rest of the string back, so several integers
//! can be pulled from one response line in turn.

use vstd::prelude::*;

use crate::errors::DecodeError;
use crate::text::find_from;
use crate::text::find_from_exec;

verus! {

/// The three term shapes a CLNI integer can take.
#[derive(Debug, Clone, Copy, PartialEq, Eq, Structural)]
pub enum Sign {
    Positive,
    Negative,
    Zero,
}

/// Decoded CLNI values are 32-bit; scan positions and counters stay within
/// `i32` as long as the input is no longer than this.
pub const MAX_TERM_LEN: usize = 0x7fff_ffff;

/// Outcome of scanning a sequence while tracking parenthesis nesting:
/// either the nesting reached zero (`Done`, with the backslash count and the
/// unconsumed rest) or the sequence ran out first (`More`, with the state the
/// scan ended in).
pub enum ScanState {
    Done { count: int, rest: Seq<char> },
    More { depth: int, count: int },
}

/// Scan `s` left to right from nesting `depth`, counting backslashes into
/// `count`, until the nesting returns to zero.
pub open spec fn scan_seq(s: Seq<char>, depth: int, count: int) -> ScanState
    decreases s.len(),
{
    if s.len() == 0 {
        ScanState::More { depth, count }
    } else {
        let c = s[0];
        let d2 = if c == '(' {
            depth + 1
        } else if c == ')' {
            depth - 1
        } else {
            depth
        };
        let c2 = if c == '\\' {
            count + 1
        } else {
            count
        };
        if d2 == 0 {
            ScanState::Done { count: c2, rest: s.drop_first() }
        } else {
            scan_seq(s.drop_first(), d2, c2)
        }
    }
}

/// Scan from `i` for the first `.`, counting the spaces passed on the way;
/// yields the space count and the index just past the dot.
pub open spec fn spaces_to_dot(s: Seq<char>, i: int, spaces: int) -> Option<(int, int)>
    decreases s.len() - i,
{
    if i < 0 || i >= s.len() {
        None
    } else if s[i] == '.' {
        Some((spaces, i + 1))
    } else if s[i] == ' ' {
        spaces_to_dot(s, i + 1, spaces + 1)
    } else {
        spaces_to_dot(s, i + 1, spaces)
    }
}

/// After the dot of a spaceless binder list: `true` if a `)` (or the end)
/// comes before any `(` — the zero shape — and `false` otherwise.
pub open spec fn zero_shape_from(s: Seq<char>, i: int) -> bool
    decreases s.len() - i,
{
    if i < 0 || i >= s.len() {
        true
    } else if s[i] == ')' {
        true
    } else if s[i] == '(' {
        false
    } else {
        zero_shape_from(s, i + 1)
    }
}

/// Sign classification of the CLNI term at the head of `s`: any space
/// between the first `\` and the first `.` means a second bound variable is
/// present (positive); otherwise the body decides between zero and negative.
pub open spec fn clni_sign_spec(s: Seq<char>) -> Result<Sign, DecodeError> {
    match find_from(s, 0, '\\') {
        None => Err(DecodeError::NoLambdaSymbol),
        Some(b) => match spaces_to_dot(s, b + 1, 0) {
            None => Err(DecodeError::UnterminatedBinderList),
            Some((sp, after)) => Ok(
                if sp > 0 {
                    Sign::Positive
                } else if zero_shape_from(s, after) {
                    Sign::Zero
                } else {
                    Sign::Negative
                },
            ),
        },
    }
}

/// The value a raw backslash count resolves to under each sign.
pub open spec fn sign_value(sign: Sign, count: int) -> int {
    match sign {
        Sign::Positive => count,
        Sign::Negative => 1 - count,
        Sign::Zero => 0,
    }
}

/// Full CLNI decoding of the term at the head of `s`: the decoded value and
/// the unconsumed remainder, or the error the decoder stops with.
pub open spec fn clni_decode_spec(s: Seq<char>) -> Result<(int, Seq<char>), DecodeError> {
    if s.len() == 0 {
        Err(DecodeError::EmptyTerm)
    } else if s[0] != '(' {
        Err(DecodeError::MissingOpenParen)
    } else {
        match clni_sign_spec(s) {
            Err(e) => Err(e),
            Ok(sign) => match scan_seq(s, 0, 0) {
                ScanState::More { .. } => Err(DecodeError::UnterminatedTerm),
                ScanState::Done { count, rest } => Ok((sign_value(sign, count), rest)),
            },
        }
    }
}

/// `clni_decode_spec`, value only.
pub open spec fn clni_int_spec(s: Seq<char>) -> Result<int, DecodeError> {
    match clni_decode_spec(s) {
        Ok(p) => Ok(p.0),
        Err(e) => Err(e),
    }
}

/// When the scan closes, it has consumed at least one character, and the
/// rest is a strict suffix.
pub proof fn lemma_scan_rest_len(s: Seq<char>, depth: int, count: int)
    ensures
        match scan_seq(s, depth, count) {
            ScanState::Done { count: c2, rest } => rest.len() < s.len(),
            ScanState::More { .. } => true,
        },
    decreases s.len(),
{
    if s.len() > 0 {
        let c = s[0];
        let d2 = if c == '(' {
            depth + 1
        } else if c == ')' {
            depth - 1
        } else {
            depth
        };
        let c2 = if c == '\\' {
            count + 1
        } else {
            count
        };
        if d2 != 0 {
            lemma_scan_rest_len(s.drop_first(), d2, c2);
        }
    }
}

/// A successfully decoded CLNI term leaves a strictly shorter remainder.
pub proof fn lemma_clni_rest_len(s: Seq<char>)
    ensures
        match clni_decode_spec(s) {
            Ok(p) => p.1.len() < s.len(),
            Err(_) => true,
        },
{
    lemma_scan_rest_len(s, 0, 0);
}

/// Executable scan from `start` to the first `.`, counting spaces.
fn scan_spaces_to_dot(s: &str, start: usize) -> (r: Option<(usize, usize)>)
    requires
        start <= s@.len(),
    ensures
        match r {
            Some((sp, after)) => spaces_to_dot(s@, start as int, 0) == Some(
                (sp as int, after as int),
            ) && after <= s@.len(),
            None => spaces_to_dot(s@, start as int, 0) == None::<(int, int)>,
        },
{
    let n = s.unicode_len();
    let mut i: usize = start;
    let mut spaces: usize = 0;
    while i < n
        invariant
            start <= i <= n,
            spaces <= i,
            n == s@.len(),
            spaces_to_dot(s@, start as int, 0) == spaces_to_dot(s@, i as int, spaces as int),
        decreases n - i,
    {
        let c = s.get_char(i);
        if c == '.' {
            return Some((spaces, i + 1));
        }
        if c == ' ' {
            spaces = spaces + 1;
        }
        i = i + 1;
    }
    None
}

/// Executable sign classification of the CLNI term at the head of `s`.
pub fn clni_prefix_sign(s: &str) -> (r: Result<Sign, DecodeError>)
    ensures
        r == clni_sign_spec(s@),
{
    let n = s.unicode_len();
    let b = match find_from_exec(s, 0, '\\') {
        None => {
            return Err(DecodeError::NoLambdaSymbol);
        },
        Some(b) => b,
    };
    // Count the spaces between the backslash and the dot that closes the
    // binder list.
    let (spaces, after) = match scan_spaces_to_dot(s, b + 1) {
        None => {
            return Err(DecodeError::UnterminatedBinderList);
        },
        Some(p) => p,
    };
    if spaces > 0 {
        return Ok(Sign::Positive);
    }
    // No second bound variable: scan past the dot for the first paren to
    // tell zero from negative.
    let mut j: usize = after;
    while j < n
        invariant
            after <= j <= n,
            n == s@.len(),
            find_from(s@, 0, '\\') == Some(b as int),
            spaces_to_dot(s@, b as int + 1, 0) == Some((spaces as int, after as int)),
            spaces == 0,
            zero_shape_from(s@, after as int) == zero_shape_from(s@, j as int),
        decreases n - j,
    {
        let c = s.get_char(j);
        if c == ')' {
            return Ok(Sign::Zero);
        }
        if c == '(' {
            return Ok(Sign::Negative);
        }
        j = j + 1;
    }
    Ok(Sign::Zero)
}

/// Decode the CLNI integer at the head of `s`, returning its value and the
/// rest of the string after the balanced close, exactly as
/// `clni_decode_spec` describes.  Trailing text is preserved so that several
/// integers can be decoded back to back.
pub fn clni_prefix_to_int<'a>(s: &'a str) -> (r: Result<(i32, &'a str), DecodeError>)
    requires
        s@.len() <= MAX_TERM_LEN,
    ensures
        match r {
            Ok((v, rest)) => clni_decode_spec(s@) == Ok::<(int, Seq<char>), DecodeError>(
                (v as int, rest@),
            ),
            Err(e) => clni_decode_spec(s@) == Err::<(int, Seq<char>), DecodeError>(e),
        },
{
    let n = s.unicode_len();
    if n == 0 {
        return Err(DecodeError::EmptyTerm);
    }
    if s.get_char(0) != '(' {
        return Err(DecodeError::MissingOpenParen);
    }
    let sign = match clni_prefix_sign(s) {
        Ok(sg) => sg,
        Err(e) => {
            return Err(e);
        },
    };
    let mut i: usize = 0;
    let mut depth: i32 = 0;
    let mut count: i32 = 0;
    proof {
        assert(s@.subrange(0, n as int) =~= s@);
    }
    while i < n
        invariant
            0 <= i <= n,
            n == s@.len(),
            n <= MAX_TERM_LEN,
            n > 0,
            s@[0] == '(',
            clni_sign_spec(s@) == Ok::<Sign, DecodeError>(sign),
            0 <= count <= i,
            -(i as int) <= depth as int <= i as int,
            scan_seq(s@, 0, 0) == scan_seq(
                s@.subrange(i as int, n as int),
                depth as int,
                count as int,
            ),
        decreases n - i,
    {
        let c = s.get_char(i);
        proof {
            assert(s@.subrange(i as int, n as int).drop_first() =~= s@.subrange(
                i as int + 1,
                n as int,
            ));
        }
        let d2 = if c == '(' {
            depth + 1
        } else if c == ')' {
            depth - 1
        } else {
            depth
        };
        let c2 = if c == '\\' {
            count + 1
        } else {
            count
        };
        if d2 == 0 {
            proof {
                assert(scan_seq(s@.subrange(i as int, n as int), depth as int, count as int)
                    == (ScanState::Done {
                    count: c2 as int,
                    rest: s@.subrange(i as int + 1, n as int),
                }));
            }
            let rest = s.substring_char(i + 1, n);
            let value = match sign {
                Sign::Positive => c2,
                Sign::Negative => -(c2 - 1),
                Sign::Zero => 0,
            };
            return Ok((value, rest));
        }
        depth = d2;
        count = c2;
        i = i + 1;
    }
    proof {
        assert(s@.subrange(n as int, n as int) =~= Seq::<char>::empty());
    }
    Err(DecodeError::UnterminatedTerm)
}

/// Decode a whole CLNI response line to its integer value, ignoring any
/// trailing text.
pub fn clni_to_int(s: &str) -> (r: Result<i32, DecodeError>)
    requires
        s@.len() <= MAX_TERM_LEN,
    ensures
        match r {
            Ok(v) => clni_int_spec(s@) == Ok::<int, DecodeError>(v as int),
            Err(e) => clni_int_spec(s@) == Err::<int, DecodeError>(e),
        },
{
    match clni_prefix_to_int(s) {
        Ok((v, _)) => Ok(v),
        Err(e) => Err(e),
    }
}

} // verus!
