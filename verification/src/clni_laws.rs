//! The canonical CLNI term for each integer, an executable encoder that
//! builds it, and the round-trip law: decoding the canonical term of `n`
//! yields `n` — with any trailing text preserved as the remainder, so the
//! law also carries the chained decoding that rectangle tuples rely on.

use vstd::prelude::*;
use vstd::string::StringExecFns;

use crate::clni::clni_decode_spec;
use crate::clni::clni_sign_spec;
use crate::clni::scan_seq;
use crate::clni::spaces_to_dot;
use crate::clni::zero_shape_from;
use crate::clni::ScanState;
use crate::clni::Sign;
use crate::errors::DecodeError;
use crate::text::lemma_find_from_at;

verus! {

/// The wrapper a positive canonical term nests once per layer: `(\u. u `.
pub open spec fn pos_wrap_open() -> Seq<char> {
    seq!['(', '\\', 'u', '.', ' ', 'u', ' ']
}

/// The innermost part of a positive canonical term: `k` nested wraps
/// around the final `x`.
pub open spec fn canon_pos_inner(k: nat) -> Seq<char>
    decreases k,
{
    if k == 0 {
        seq!['x']
    } else {
        pos_wrap_open() + canon_pos_inner((k - 1) as nat) + seq![')']
    }
}

/// The head of a positive canonical term: `(\x u. u `.
pub open spec fn pos_head() -> Seq<char> {
    seq!['(', '\\', 'x', ' ', 'u', '.', ' ', 'u', ' ']
}

/// The no-op application a negative canonical term chains: ` (\u. u)`.
pub open spec fn neg_unit() -> Seq<char> {
    seq![' ', '(', '\\', 'u', '.', ' ', 'u', ')']
}

/// `m` chained no-op applications.
pub open spec fn canon_neg_chain(m: nat) -> Seq<char>
    decreases m,
{
    if m == 0 {
        Seq::empty()
    } else {
        neg_unit() + canon_neg_chain((m - 1) as nat)
    }
}

/// The head of a zero or negative canonical term: `(\x. x`.
pub open spec fn zero_head() -> Seq<char> {
    seq!['(', '\\', 'x', '.', ' ', 'x']
}

/// The canonical CLNI term for `n`: `(\x u. u (\u. u ... x))` with `n`
/// backslashes for positive `n`, `(\x. x)` for zero, and
/// `(\x. x (\u. u) ...)` with `-n` no-op applications for negative `n`.
pub open spec fn clni_canonical(n: int) -> Seq<char> {
    if n > 0 {
        pos_head() + canon_pos_inner((n - 1) as nat) + seq![')']
    } else if n == 0 {
        zero_head() + seq![')']
    } else {
        zero_head() + canon_neg_chain((-n) as nat) + seq![')']
    }
}

/// Scanning `a + b` continues into `b` with the state `a` ended in, or
/// finishes inside `a` with `b` appended to the remainder.
pub proof fn lemma_scan_seq_append(a: Seq<char>, b: Seq<char>, depth: int, count: int)
    ensures
        match scan_seq(a, depth, count) {
            ScanState::More { depth: d2, count: c2 } => scan_seq(a + b, depth, count) == scan_seq(
                b,
                d2,
                c2,
            ),
            ScanState::Done { count: c2, rest } => scan_seq(a + b, depth, count)
                == (ScanState::Done { count: c2, rest: rest + b }),
        },
    decreases a.len(),
{
    if a.len() == 0 {
        assert(a + b =~= b);
    } else {
        assert((a + b)[0] == a[0]);
        assert((a + b).drop_first() =~= a.drop_first() + b);
        let c = a[0];
        let d2 = if c == '(' {
            depth + 1
        } else if c == ')' {
            depth - 1
        } else {
            depth
        };
        let c2 = if c == '\\' {
            count + 1
        } else {
            count
        };
        if d2 != 0 {
            lemma_scan_seq_append(a.drop_first(), b, d2, c2);
        }
    }
}

/// Scanning the positive wrapper from any open nesting adds one level and
/// one backslash.
proof fn lemma_scan_pos_wrap(d: int, c: int)
    requires
        d >= 1,
    ensures
        scan_seq(pos_wrap_open(), d, c) == (ScanState::More { depth: d + 1, count: c + 1 }),
{
    let s0 = pos_wrap_open();
    let s1 = s0.drop_first();
    let s2 = s1.drop_first();
    let s3 = s2.drop_first();
    let s4 = s3.drop_first();
    let s5 = s4.drop_first();
    let s6 = s5.drop_first();
    let s7 = s6.drop_first();
    assert(s1 =~= seq!['\\', 'u', '.', ' ', 'u', ' ']);
    assert(s2 =~= seq!['u', '.', ' ', 'u', ' ']);
    assert(s3 =~= seq!['.', ' ', 'u', ' ']);
    assert(s4 =~= seq![' ', 'u', ' ']);
    assert(s5 =~= seq!['u', ' ']);
    assert(s6 =~= seq![' ']);
    assert(s7 =~= Seq::<char>::empty());
    assert(scan_seq(s0, d, c) == scan_seq(s1, d + 1, c));
    assert(scan_seq(s1, d + 1, c) == scan_seq(s2, d + 1, c + 1));
    assert(scan_seq(s2, d + 1, c + 1) == scan_seq(s3, d + 1, c + 1));
    assert(scan_seq(s3, d + 1, c + 1) == scan_seq(s4, d + 1, c + 1));
    assert(scan_seq(s4, d + 1, c + 1) == scan_seq(s5, d + 1, c + 1));
    assert(scan_seq(s5, d + 1, c + 1) == scan_seq(s6, d + 1, c + 1));
    assert(scan_seq(s6, d + 1, c + 1) == scan_seq(s7, d + 1, c + 1));
}

/// Scanning the positive head opens one level and counts one backslash.
proof fn lemma_scan_pos_head(d: int, c: int)
    requires
        d >= 0,
    ensures
        scan_seq(pos_head(), d, c) == (ScanState::More { depth: d + 1, count: c + 1 }),
{
    let s0 = pos_head();
    let s1 = s0.drop_first();
    let s2 = s1.drop_first();
    let s3 = s2.drop_first();
    let s4 = s3.drop_first();
    let s5 = s4.drop_first();
    let s6 = s5.drop_first();
    let s7 = s6.drop_first();
    let s8 = s7.drop_first();
    let s9 = s8.drop_first();
    assert(s1 =~= seq!['\\', 'x', ' ', 'u', '.', ' ', 'u', ' ']);
    assert(s2 =~= seq!['x', ' ', 'u', '.', ' ', 'u', ' ']);
    assert(s3 =~= seq![' ', 'u', '.', ' ', 'u', ' ']);
    assert(s4 =~= seq!['u', '.', ' ', 'u', ' ']);
    assert(s5 =~= seq!['.', ' ', 'u', ' ']);
    assert(s6 =~= seq![' ', 'u', ' ']);
    assert(s7 =~= seq!['u', ' ']);
    assert(s8 =~= seq![' ']);
    assert(s9 =~= Seq::<char>::empty());
    assert(scan_seq(s0, d, c) == scan_seq(s1, d + 1, c));
    assert(scan_seq(s1, d + 1, c) == scan_seq(s2, d + 1, c + 1));
    assert(scan_seq(s2, d + 1, c + 1) == scan_seq(s3, d + 1, c + 1));
    assert(scan_seq(s3, d + 1, c + 1) == scan_seq(s4, d + 1, c + 1));
    assert(scan_seq(s4, d + 1, c + 1) == scan_seq(s5, d + 1, c + 1));
    assert(scan_seq(s5, d + 1, c + 1) == scan_seq(s6, d + 1, c + 1));
    assert(scan_seq(s6, d + 1, c + 1) == scan_seq(s7, d + 1, c + 1));
    assert(scan_seq(s7, d + 1, c + 1) == scan_seq(s8, d + 1, c + 1));
    assert(scan_seq(s8, d + 1, c + 1) == scan_seq(s9, d + 1, c + 1));
}

/// Scanning the zero/negative head opens one level and counts one
/// backslash.
proof fn lemma_scan_zero_head(d: int, c: int)
    requires
        d >= 0,
    ensures
        scan_seq(zero_head(), d, c) == (ScanState::More { depth: d + 1, count: c + 1 }),
{
    let s0 = zero_head();
    let s1 = s0.drop_first();
    let s2 = s1.drop_first();
    let s3 = s2.drop_first();
    let s4 = s3.drop_first();
    let s5 = s4.drop_first();
    let s6 = s5.drop_first();
    assert(s1 =~= seq!['\\', 'x', '.', ' ', 'x']);
    assert(s2 =~= seq!['x', '.', ' ', 'x']);
    assert(s3 =~= seq!['.', ' ', 'x']);
    assert(s4 =~= seq![' ', 'x']);
    assert(s5 =~= seq!['x']);
    assert(s6 =~= Seq::<char>::empty());
    assert(scan_seq(s0, d, c) == scan_seq(s1, d + 1, c));
    assert(scan_seq(s1, d + 1, c) == scan_seq(s2, d + 1, c + 1));
    assert(scan_seq(s2, d + 1, c + 1) == scan_seq(s3, d + 1, c + 1));
    assert(scan_seq(s3, d + 1, c + 1) == scan_seq(s4, d + 1, c + 1));
    assert(scan_seq(s4, d + 1, c + 1) == scan_seq(s5, d + 1, c + 1));
    assert(scan_seq(s5, d + 1, c + 1) == scan_seq(s6, d + 1, c + 1));
}

/// Scanning one no-op application inside an open term adds one backslash
/// and leaves the nesting as it was.
proof fn lemma_scan_neg_unit(d: int, c: int)
    requires
        d >= 1,
    ensures
        scan_seq(neg_unit(), d, c) == (ScanState::More { depth: d, count: c + 1 }),
{
    let s0 = neg_unit();
    let s1 = s0.drop_first();
    let s2 = s1.drop_first();
    let s3 = s2.drop_first();
    let s4 = s3.drop_first();
    let s5 = s4.drop_first();
    let s6 = s5.drop_first();
    let s7 = s6.drop_first();
    assert(s1 =~= seq!['(', '\\', 'u', '.', ' ', 'u', ')']);
    assert(s2 =~= seq!['\\', 'u', '.', ' ', 'u', ')']);
    assert(s3 =~= seq!['u', '.', ' ', 'u', ')']);
    assert(s4 =~= seq!['.', ' ', 'u', ')']);
    assert(s5 =~= seq![' ', 'u', ')']);
    assert(s6 =~= seq!['u', ')']);
    assert(s7 =~= seq![')']);
    assert(scan_seq(s0, d, c) == scan_seq(s1, d, c));
    assert(scan_seq(s1, d, c) == scan_seq(s2, d + 1, c));
    assert(scan_seq(s2, d + 1, c) == scan_seq(s3, d + 1, c + 1));
    assert(scan_seq(s3, d + 1, c + 1) == scan_seq(s4, d + 1, c + 1));
    assert(scan_seq(s4, d + 1, c + 1) == scan_seq(s5, d + 1, c + 1));
    assert(scan_seq(s5, d + 1, c + 1) == scan_seq(s6, d + 1, c + 1));
    assert(scan_seq(s6, d + 1, c + 1) == scan_seq(s7, d + 1, c + 1));
    assert(s7.drop_first() =~= Seq::<char>::empty());
    assert(scan_seq(s7, d + 1, c + 1) == scan_seq(Seq::<char>::empty(), d, c + 1));
    assert(scan_seq(s7, d + 1, c + 1) == (ScanState::More { depth: d, count: c + 1 }));
}

/// The inner part of a positive term is balanced and carries `k`
/// backslashes.
proof fn lemma_scan_canon_pos_inner(k: nat, d: int, c: int)
    requires
        d >= 1,
    ensures
        scan_seq(canon_pos_inner(k), d, c) == (ScanState::More { depth: d, count: c + k }),
    decreases k,
{
    if k == 0 {
        let s0 = canon_pos_inner(0);
        assert(s0 =~= seq!['x']);
        assert(s0.drop_first() =~= Seq::<char>::empty());
        assert(scan_seq(s0, d, c) == scan_seq(s0.drop_first(), d, c));
    } else {
        let a = pos_wrap_open();
        let b = canon_pos_inner((k - 1) as nat);
        let t = seq![')'];
        assert(canon_pos_inner(k) =~= a + (b + t));
        lemma_scan_pos_wrap(d, c);
        lemma_scan_seq_append(a, b + t, d, c);
        lemma_scan_canon_pos_inner((k - 1) as nat, d + 1, c + 1);
        lemma_scan_seq_append(b, t, d + 1, c + 1);
        assert(t.drop_first() =~= Seq::<char>::empty());
        assert(c + 1 + (k - 1) == c + k as int);
        assert(scan_seq(t, d + 1, c + k as int) == scan_seq(Seq::<char>::empty(), d, c + k as int));
        assert(scan_seq(t, d + 1, c + 1 + (k - 1)) == (ScanState::More {
            depth: d,
            count: c + k,
        }));
    }
}

/// The no-op chain of a negative term is balanced and carries `m`
/// backslashes.
proof fn lemma_scan_canon_neg_chain(m: nat, d: int, c: int)
    requires
        d >= 1,
    ensures
        scan_seq(canon_neg_chain(m), d, c) == (ScanState::More { depth: d, count: c + m }),
    decreases m,
{
    if m == 0 {
    } else {
        lemma_scan_neg_unit(d, c);
        lemma_scan_seq_append(neg_unit(), canon_neg_chain((m - 1) as nat), d, c);
        lemma_scan_canon_neg_chain((m - 1) as nat, d, c + 1);
    }
}

/// Decoding the canonical term of `n` with any text behind it yields `n`
/// and leaves exactly that text: the round-trip law, in the chained form
/// tuple decoding uses.
pub proof fn lemma_clni_canonical_decode(n: int, tail: Seq<char>)
    ensures
        clni_decode_spec(clni_canonical(n) + tail) == Ok::<(int, Seq<char>), DecodeError>(
            (n, tail),
        ),
{
    let s = clni_canonical(n) + tail;
    let close = seq![')'];
    if n > 0 {
        let inner = canon_pos_inner((n - 1) as nat);
        assert(s =~= pos_head() + (inner + (close + tail)));
        assert(s[0] == '(');
        assert(s[1] == '\\');
        assert(s[2] == 'x');
        assert(s[3] == ' ');
        assert(s[4] == 'u');
        assert(s[5] == '.');
        // Sign: one space between the backslash and the dot.
        lemma_find_from_at(s, 0, 1, '\\');
        assert(spaces_to_dot(s, 2, 0) == spaces_to_dot(s, 3, 0));
        assert(spaces_to_dot(s, 3, 0) == spaces_to_dot(s, 4, 1));
        assert(spaces_to_dot(s, 4, 1) == spaces_to_dot(s, 5, 1));
        assert(spaces_to_dot(s, 5, 1) == Some((1int, 6int)));
        assert(clni_sign_spec(s) == Ok::<Sign, DecodeError>(Sign::Positive));
        // Count: the head opens and counts one, the inner part counts the
        // remaining n - 1, the close finishes with the tail left over.
        lemma_scan_pos_head(0, 0);
        lemma_scan_seq_append(pos_head(), inner + (close + tail), 0, 0);
        lemma_scan_canon_pos_inner((n - 1) as nat, 1, 1);
        lemma_scan_seq_append(inner, close + tail, 1, 1);
        assert((close + tail)[0] == ')');
        assert((close + tail).drop_first() =~= tail);
        assert(scan_seq(close + tail, 1, n) == (ScanState::Done { count: n, rest: tail }));
    } else if n == 0 {
        assert(s =~= zero_head() + (close + tail));
        assert(s[0] == '(');
        assert(s[1] == '\\');
        assert(s[2] == 'x');
        assert(s[3] == '.');
        assert(s[4] == ' ');
        assert(s[5] == 'x');
        assert(s[6] == ')');
        lemma_find_from_at(s, 0, 1, '\\');
        assert(spaces_to_dot(s, 2, 0) == spaces_to_dot(s, 3, 0));
        assert(spaces_to_dot(s, 3, 0) == Some((0int, 4int)));
        assert(zero_shape_from(s, 4) == zero_shape_from(s, 5));
        assert(zero_shape_from(s, 5) == zero_shape_from(s, 6));
        assert(zero_shape_from(s, 6));
        assert(clni_sign_spec(s) == Ok::<Sign, DecodeError>(Sign::Zero));
        lemma_scan_zero_head(0, 0);
        lemma_scan_seq_append(zero_head(), close + tail, 0, 0);
        assert((close + tail)[0] == ')');
        assert((close + tail).drop_first() =~= tail);
        assert(scan_seq(close + tail, 1, 1) == (ScanState::Done { count: 1, rest: tail }));
    } else {
        let m = (-n) as nat;
        let chain = canon_neg_chain(m);
        assert(s =~= zero_head() + (chain + (close + tail)));
        assert(s[0] == '(');
        assert(s[1] == '\\');
        assert(s[2] == 'x');
        assert(s[3] == '.');
        assert(s[4] == ' ');
        assert(s[5] == 'x');
        // The chain is non-empty, so an application follows the body.
        assert(chain[0] == ' ');
        assert(chain[1] == '(');
        assert(s[6] == ' ');
        assert(s[7] == '(');
        lemma_find_from_at(s, 0, 1, '\\');
        assert(spaces_to_dot(s, 2, 0) == spaces_to_dot(s, 3, 0));
        assert(spaces_to_dot(s, 3, 0) == Some((0int, 4int)));
        assert(zero_shape_from(s, 4) == zero_shape_from(s, 5));
        assert(zero_shape_from(s, 5) == zero_shape_from(s, 6));
        assert(zero_shape_from(s, 6) == zero_shape_from(s, 7));
        assert(!zero_shape_from(s, 7));
        assert(clni_sign_spec(s) == Ok::<Sign, DecodeError>(Sign::Negative));
        lemma_scan_zero_head(0, 0);
        lemma_scan_seq_append(zero_head(), chain + (close + tail), 0, 0);
        lemma_scan_canon_neg_chain(m, 1, 1);
        lemma_scan_seq_append(chain, close + tail, 1, 1);
        assert((close + tail)[0] == ')');
        assert((close + tail).drop_first() =~= tail);
        assert(scan_seq(close + tail, 1, 1 + m as int) == (ScanState::Done {
            count: 1 + m as int,
            rest: tail,
        }));
        assert(1 - (1 + m as int) == n);
    }
}

/// Law: CLNI round-trips.  For every integer, decoding the canonical term
/// yields that integer exactly, with nothing left over.
pub proof fn lemma_clni_round_trip(n: int)
    ensures
        clni_decode_spec(clni_canonical(n)) == Ok::<(int, Seq<char>), DecodeError>(
            (n, Seq::<char>::empty()),
        ),
{
    lemma_clni_canonical_decode(n, Seq::empty());
    assert(clni_canonical(n) + Seq::<char>::empty() =~= clni_canonical(n));
}

/// Build `canon_pos_inner(k)` executably.
fn encode_pos_inner(k: usize) -> (r: String)
    ensures
        r@ == canon_pos_inner(k as nat),
    decreases k,
{
    if k == 0 {
        let r = String::from_str("x");
        proof {
            reveal_strlit("x");
            assert(r@ =~= seq!['x']);
        }
        r
    } else {
        let mut r = String::from_str("(\\u. u ");
        proof {
            reveal_strlit("(\\u. u ");
            assert(r@ =~= pos_wrap_open());
        }
        let inner = encode_pos_inner(k - 1);
        r.append(inner.as_str());
        r.append(")");
        proof {
            reveal_strlit(")");
            assert(")"@ =~= seq![')']);
        }
        r
    }
}

/// Build `canon_neg_chain(m)` executably.
fn encode_neg_chain(m: usize) -> (r: String)
    ensures
        r@ == canon_neg_chain(m as nat),
    decreases m,
{
    if m == 0 {
        let r = String::new();
        proof {
            assert(r@ =~= canon_neg_chain(0));
        }
        r
    } else {
        let mut r = String::from_str(" (\\u. u)");
        proof {
            reveal_strlit(" (\\u. u)");
            assert(r@ =~= neg_unit());
        }
        let rest = encode_neg_chain(m - 1);
        r.append(rest.as_str());
        r
    }
}

/// Encode `n` as its canonical CLNI term.
pub fn encode_clni(n: i32) -> (r: String)
    ensures
        r@ == clni_canonical(n as int),
{
    if n > 0 {
        let mut r = String::from_str("(\\x u. u ");
        proof {
            reveal_strlit("(\\x u. u ");
            assert(r@ =~= pos_head());
        }
        let inner = encode_pos_inner((n - 1) as usize);
        r.append(inner.as_str());
        r.append(")");
        proof {
            reveal_strlit(")");
            assert(")"@ =~= seq![')']);
        }
        r
    } else if n == 0 {
        let r = String::from_str("(\\x. x)");
        proof {
            reveal_strlit("(\\x. x)");
            assert(r@ =~= zero_head() + seq![')']);
        }
        r
    } else {
        let mut r = String::from_str("(\\x. x");
        proof {
            reveal_strlit("(\\x. x");
            assert(r@ =~= zero_head());
        }
        let m = (-(n as i64)) as usize;
        let chain = encode_neg_chain(m);
        r.append(chain.as_str());
        r.append(")");
        proof {
            reveal_strlit(")");
            assert(")"@ =~= seq![')']);
        }
        r
    }
}

} // verus!
