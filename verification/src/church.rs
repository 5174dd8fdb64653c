//! Decoder for Church booleans.
//!
//! A Church boolean is a two-bound-variable selector term, `(\a b. a)` for
//! true and `(\a b. b)` for false.  The decoder identifies the result purely
//! by matching the body text against the two bound-variable names; the names
//! themselves are arbitrary alphanumeric runs and do not matter — a law
//! proved here as `lemma_church_bool_names`.

use vstd::prelude::*;

use crate::errors::DecodeError;
use crate::text::alnum_end_exec;
use crate::text::alnum_end_from;
use crate::text::find_from;
use crate::text::find_from_exec;
use crate::text::is_alnum;
use crate::text::is_space;
use crate::text::lemma_alnum_end_at;
use crate::text::lemma_find_from_at;
use crate::text::lemma_rskip_parens_at;
use crate::text::lemma_rskip_ws_at;
use crate::text::lemma_skip_blanks_at;
use crate::text::lemma_skip_ws_at;
use crate::text::ranges_eq;
use crate::text::rskip_parens;
use crate::text::rskip_ws;
use crate::text::skip_blanks_exec;
use crate::text::skip_blanks_from;
use crate::text::skip_ws_from;

verus! {

/// Position of the first bound variable: the alphanumeric run right after
/// the first `\`, as a `(begin, end)` index pair.
pub open spec fn first_var_spec(s: Seq<char>) -> Result<(int, int), DecodeError> {
    match find_from(s, 0, '\\') {
        None => Err(DecodeError::NoLambdaSymbol),
        Some(b) => match alnum_end_from(s, b + 1) {
            None => Err(DecodeError::UnterminatedTerm),
            Some(e) => Ok((b + 1, e)),
        },
    }
}

/// What `parse_church_bool` returns on view `s`: find the two bound-variable
/// names, require a space between them and a dot after the second, trim the
/// body and strip its over-closing `)`s, then match it against the first
/// name (true) or the second (false).
pub open spec fn church_bool_spec(s: Seq<char>) -> Result<bool, DecodeError> {
    match first_var_spec(s) {
        Err(e) => Err(e),
        Ok((vb, ve)) => {
            let sb = skip_blanks_from(s, ve);
            if sb == ve {
                Err(DecodeError::MissingSeparator)
            } else {
                match alnum_end_from(s, sb) {
                    None => Err(DecodeError::UnterminatedTerm),
                    Some(se) => if s[se] != '.' {
                        Err(DecodeError::MissingDot)
                    } else {
                        let lo = skip_ws_from(s, se + 1);
                        let hi = rskip_parens(s, lo, rskip_ws(s, lo, s.len() as int));
                        if s.subrange(lo, hi) == s.subrange(vb, ve) {
                            Ok(true)
                        } else if s.subrange(lo, hi) == s.subrange(sb, se) {
                            Ok(false)
                        } else {
                            Err(DecodeError::BodyMismatch)
                        }
                    },
                }
            }
        },
    }
}

/// Find the first bound variable of the term: the indices of the
/// alphanumeric run right after the first backslash.
pub fn get_first_var_pos(s: &str) -> (r: Result<(usize, usize), DecodeError>)
    ensures
        match r {
            Ok((vb, ve)) => first_var_spec(s@) == Ok::<(int, int), DecodeError>(
                (vb as int, ve as int),
            ) && vb <= ve < s@.len(),
            Err(e) => first_var_spec(s@) == Err::<(int, int), DecodeError>(e),
        },
{
    // Binds the character count, so the index arithmetic below is known to
    // stay within `usize`.
    let _n = s.unicode_len();
    let b = match find_from_exec(s, 0, '\\') {
        None => {
            return Err(DecodeError::NoLambdaSymbol);
        },
        Some(b) => b,
    };
    let e = match get_var_end(s, b + 1) {
        Err(er) => {
            return Err(er);
        },
        Ok(e) => e,
    };
    Ok((b + 1, e))
}

/// Find where the variable name starting at `var_beg` ends: the index of the
/// first non-alphanumeric character at or after it.
pub fn get_var_end(s: &str, var_beg: usize) -> (r: Result<usize, DecodeError>)
    requires
        var_beg <= s@.len(),
    ensures
        match r {
            Ok(e) => alnum_end_from(s@, var_beg as int) == Some(e as int) && var_beg <= e
                < s@.len(),
            Err(er) => alnum_end_from(s@, var_beg as int) == None::<int> && er
                == DecodeError::UnterminatedTerm,
        },
{
    match alnum_end_exec(s, var_beg) {
        None => Err(DecodeError::UnterminatedTerm),
        Some(e) => Ok(e),
    }
}

/// Convert a Church boolean term to a native boolean, per
/// `church_bool_spec`: `Ok(true)` when the body names the first bound
/// variable, `Ok(false)` when it names the second, and an error naming the
/// first malformation otherwise.
pub fn parse_church_bool(s: &str) -> (r: Result<bool, DecodeError>)
    ensures
        r == church_bool_spec(s@),
{
    let n = s.unicode_len();
    let (vb, ve) = match get_first_var_pos(s) {
        Err(e) => {
            return Err(e);
        },
        Ok(p) => p,
    };
    let sb = skip_blanks_exec(s, ve);
    if sb == ve {
        return Err(DecodeError::MissingSeparator);
    }
    let se = match get_var_end(s, sb) {
        Err(e) => {
            return Err(e);
        },
        Ok(e) => e,
    };
    if s.get_char(se) != '.' {
        return Err(DecodeError::MissingDot);
    }
    // The body: everything after the dot, trimmed, with any over-closing
    // parens from an enclosing context stripped off the right.
    let mut lo: usize = se + 1;
    while lo < n && crate::text::is_space_char(s.get_char(lo))
        invariant
            se + 1 <= lo <= n,
            n == s@.len(),
            skip_ws_from(s@, se as int + 1) == skip_ws_from(s@, lo as int),
        decreases n - lo,
    {
        lo = lo + 1;
    }
    let mut hi: usize = n;
    while hi > lo && crate::text::is_space_char(s.get_char(hi - 1))
        invariant
            lo <= hi <= n,
            n == s@.len(),
            rskip_ws(s@, lo as int, n as int) == rskip_ws(s@, lo as int, hi as int),
        decreases hi,
    {
        hi = hi - 1;
    }
    let ghost hi_ws = hi as int;
    while hi > lo && s.get_char(hi - 1) == ')'
        invariant
            lo <= hi <= n,
            n == s@.len(),
            hi <= hi_ws,
            rskip_parens(s@, lo as int, hi_ws) == rskip_parens(s@, lo as int, hi as int),
        decreases hi,
    {
        hi = hi - 1;
    }
    if ranges_eq(s, lo, hi, vb, ve) {
        Ok(true)
    } else if ranges_eq(s, lo, hi, sb, se) {
        Ok(false)
    } else {
        Err(DecodeError::BodyMismatch)
    }
}

/// A well-shaped Church boolean term built from two given variable names,
/// whose body repeats one of them.
pub open spec fn church_term(v1: Seq<char>, v2: Seq<char>, body: Seq<char>) -> Seq<char> {
    seq!['(', '\\'] + v1 + seq![' '] + v2 + seq!['.', ' '] + body + seq![')']
}

/// All characters of `v` are alphanumeric.
pub open spec fn all_alnum(v: Seq<char>) -> bool {
    forall|k: int| 0 <= k < v.len() ==> is_alnum(v[k])
}

/// Law: the bound-variable names of a Church boolean are irrelevant.  For
/// any non-empty alphanumeric names, a selector term whose body repeats the
/// first name decodes to `true`, and one whose body repeats the second name
/// decodes to `false` (provided the two names differ — with identical names
/// the body matches the first name already, and the term decodes to `true`).
pub proof fn lemma_church_bool_names(v1: Seq<char>, v2: Seq<char>, first: bool)
    requires
        v1.len() > 0,
        v2.len() > 0,
        all_alnum(v1),
        all_alnum(v2),
        !first ==> v1 != v2,
    ensures
        church_bool_spec(
            church_term(
                v1,
                v2,
                if first {
                    v1
                } else {
                    v2
                },
            ),
        ) == Ok::<bool, DecodeError>(first),
{
    let body = if first {
        v1
    } else {
        v2
    };
    let s = church_term(v1, v2, body);
    let n1 = v1.len() as int;
    let n2 = v2.len() as int;
    let nb = body.len() as int;
    let len = s.len() as int;
    assert(len == 6 + n1 + n2 + nb);
    assert(s[0] == '(');
    assert(s[1] == '\\');
    assert forall|k: int| 0 <= k < n1 implies s[2 + k] == v1[k] by {}
    assert(s[2 + n1] == ' ');
    assert forall|k: int| 0 <= k < n2 implies s[3 + n1 + k] == v2[k] by {}
    assert(s[3 + n1 + n2] == '.');
    assert(s[4 + n1 + n2] == ' ');
    assert forall|k: int| 0 <= k < nb implies s[5 + n1 + n2 + k] == body[k] by {}
    assert(s[len - 1] == ')');

    // An alphanumeric character is none of the structural ones.
    assert(!is_alnum('\\') && !is_alnum(' ') && !is_alnum('.') && !is_alnum('(') && !is_alnum(
        ')',
    ));
    assert(forall|c: char| is_alnum(c) ==> c != '\\' && c != ' ' && c != '.' && c != ')'
        && !is_space(c));

    // First variable: backslash at 1, name on [2, 2 + n1).
    lemma_find_from_at(s, 0, 1, '\\');
    lemma_alnum_end_at(s, 2, 2 + n1);
    assert(first_var_spec(s) == Ok::<(int, int), DecodeError>((2, 2 + n1)));

    // Separator: exactly one space, then the second name up to the dot.
    lemma_skip_blanks_at(s, 2 + n1, 3 + n1);
    lemma_alnum_end_at(s, 3 + n1, 3 + n1 + n2);
    assert(s[3 + n1 + n2] == '.');

    // Body: one leading space after the dot, no trailing whitespace, one
    // over-closing paren.
    let lo = 5 + n1 + n2;
    lemma_skip_ws_at(s, 4 + n1 + n2, lo);
    lemma_rskip_ws_at(s, lo, len, len);
    lemma_rskip_parens_at(s, lo, len - 1, len);

    assert(s.subrange(lo, len - 1) =~= body);
    assert(s.subrange(2, 2 + n1) =~= v1);
    assert(s.subrange(3 + n1, 3 + n1 + n2) =~= v2);

    if first {
        assert(church_bool_spec(s) == Ok::<bool, DecodeError>(true));
    } else {
        assert(s.subrange(lo, len - 1) == v2);
        assert(s.subrange(2, 2 + n1) != v2);
        assert(church_bool_spec(s) == Ok::<bool, DecodeError>(false));
    }
}

} // verus!
