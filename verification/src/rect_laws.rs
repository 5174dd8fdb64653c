//! The rectangle-list laws: decoding a chain of canonically encoded tuple
//! terms terminated by `nil` yields exactly the chain's rectangles,
//! transformed, in the *reverse* of their textual order.

use vstd::prelude::*;

use crate::church::church_bool_spec;
use crate::church::first_var_spec;
use crate::clni_laws::clni_canonical;
use crate::clni_laws::lemma_clni_canonical_decode;
use crate::errors::DecodeError;
use crate::rects::is_list_end_spec;
use crate::rects::nil_token;
use crate::rects::false_token;
use crate::rects::rect_list_spec;
use crate::rects::rect_spec;
use crate::rects::transform_spec;
use crate::rects::Rect;
use crate::text::find_from;
use crate::text::is_space;
use crate::text::lemma_alnum_end_at;
use crate::text::lemma_find_from_at;
use crate::text::lemma_skip_blanks_at;
use crate::text::lemma_trim_one_leading_space;
use crate::text::starts_with;
use crate::text::trim_spec;

verus! {

/// A run of `j` closing parens.
pub open spec fn close_parens(j: nat) -> Seq<char> {
    Seq::new(j, |i: int| ')')
}

/// The canonical textual form of one 4-tuple of CLNI integers, with its
/// selector-application wrapper: `(\f. f X Y W H)`.
pub open spec fn tuple_term(t: (int, int, int, int)) -> Seq<char> {
    seq!['(', '\\', 'f', '.', ' ', 'f', ' '] + clni_canonical(t.0) + seq![' '] + clni_canonical(
        t.1,
    ) + seq![' '] + clni_canonical(t.2) + seq![' '] + clni_canonical(t.3) + seq![')']
}

/// The canonical textual form of a whole chain: Church pairs
/// `(\z. z HEAD TAIL)` ending in the literal `nil`.
pub open spec fn list_term(ts: Seq<(int, int, int, int)>) -> Seq<char>
    decreases ts.len(),
{
    if ts.len() == 0 {
        seq!['n', 'i', 'l']
    } else {
        seq!['(', '\\', 'z', '.', ' ', 'z', ' '] + tuple_term(ts[0]) + seq![' '] + list_term(
            ts.drop_first(),
        ) + seq![')']
    }
}

/// The rectangles a chain of raw tuples decodes to, in textual order.
pub open spec fn rect_seq(ts: Seq<(int, int, int, int)>, sc: int, ox: int, oy: int) -> Seq<Rect> {
    ts.map_values(|t: (int, int, int, int)| transform_spec(t.0, t.1, t.2, t.3, sc, ox, oy))
}

/// Every canonical CLNI term opens with `(`.
proof fn lemma_canonical_head(n: int)
    ensures
        clni_canonical(n).len() >= 7,
        clni_canonical(n)[0] == '(',
{
}

/// Decoding one canonically encoded tuple term from the head of the text
/// yields its transformed rectangle and leaves exactly the trailing text.
#[verifier::rlimit(100)]
proof fn lemma_tuple_decode(t: (int, int, int, int), tail: Seq<char>, sc: int, ox: int, oy: int)
    requires
        tail.len() > 0,
        !is_space(tail.last()),
    ensures
        rect_spec(tuple_term(t) + tail, sc, ox, oy) == Ok::<(Rect, Seq<char>), DecodeError>(
            (transform_spec(t.0, t.1, t.2, t.3, sc, ox, oy), tail),
        ),
{
    let cx = clni_canonical(t.0);
    let cy = clni_canonical(t.1);
    let cw = clni_canonical(t.2);
    let ch = clni_canonical(t.3);
    lemma_canonical_head(t.0);
    lemma_canonical_head(t.1);
    lemma_canonical_head(t.2);
    lemma_canonical_head(t.3);
    let s = tuple_term(t) + tail;
    let rest_x = seq![' '] + cy + seq![' '] + cw + seq![' '] + ch + seq![')'] + tail;
    let rest_y = seq![' '] + cw + seq![' '] + ch + seq![')'] + tail;
    let rest_w = seq![' '] + ch + seq![')'] + tail;
    let rest_h = seq![')'] + tail;
    assert(s[0] == '(');
    assert(s[1] == '\\');
    assert(s[2] == 'f');
    assert(s[3] == '.');
    assert(s[4] == ' ');
    assert(s[5] == 'f');
    assert(s[6] == ' ');
    assert(s[7] == cx[0]);
    lemma_find_from_at(s, 1, 7, '(');
    assert(find_from(s, 1, '(') == Some(7int));

    // The slice from one before the second paren: a space, then the four
    // integers back to back.
    let sub = s.subrange(6, s.len() as int);
    assert(sub =~= seq![' '] + cx + rest_x);
    assert(rest_x.last() == tail.last());
    assert(sub.last() == tail.last());
    assert(sub[1] == cx[0]);
    lemma_trim_one_leading_space(sub);
    assert(trim_spec(sub) =~= cx + rest_x);
    lemma_clni_canonical_decode(t.0, rest_x);

    assert(rest_x[1] == cy[0]);
    assert(rest_x.last() == tail.last());
    lemma_trim_one_leading_space(rest_x);
    assert(trim_spec(rest_x) =~= cy + rest_y);
    lemma_clni_canonical_decode(t.1, rest_y);

    assert(rest_y[1] == cw[0]);
    assert(rest_y.last() == tail.last());
    lemma_trim_one_leading_space(rest_y);
    assert(trim_spec(rest_y) =~= cw + rest_w);
    lemma_clni_canonical_decode(t.2, rest_w);

    assert(rest_w[1] == ch[0]);
    assert(rest_w.last() == tail.last());
    lemma_trim_one_leading_space(rest_w);
    assert(trim_spec(rest_w) =~= ch + rest_h);
    lemma_clni_canonical_decode(t.3, rest_h);

    assert(rest_h[0] == ')');
    assert(rest_h.drop_first() =~= tail);
}

/// A chain term is not a list terminator: it starts with `(`, and its
/// Church-boolean decoding stops at the missing separator.
proof fn lemma_chain_not_end(s: Seq<char>)
    requires
        s.len() >= 7,
        s[0] == '(',
        s[1] == '\\',
        s[2] == 'z',
        s[3] == '.',
    ensures
        !is_list_end_spec(s),
{
    assert(nil_token()[0] == 'n');
    assert(false_token()[0] == 'f');
    assert(!starts_with(s, nil_token())) by {
        if starts_with(s, nil_token()) {
            assert(s.subrange(0, 3)[0] == 'n');
        }
    }
    assert(!starts_with(s, false_token())) by {
        if starts_with(s, false_token()) {
            assert(s.subrange(0, 5)[0] == 'f');
        }
    }
    lemma_find_from_at(s, 0, 1, '\\');
    assert(crate::text::is_alnum('z'));
    assert(!crate::text::is_alnum('.'));
    lemma_alnum_end_at(s, 2, 3);
    assert(first_var_spec(s) == Ok::<(int, int), DecodeError>((2, 3)));
    lemma_skip_blanks_at(s, 3, 3);
    assert(church_bool_spec(s) == Err::<bool, DecodeError>(DecodeError::MissingSeparator));
}

/// The decode of a canonical chain with `j` stray closing parens behind it:
/// all its rectangles, transformed, in reverse textual order.
#[verifier::rlimit(100)]
proof fn lemma_rect_list_chain(
    ts: Seq<(int, int, int, int)>,
    j: nat,
    sc: int,
    ox: int,
    oy: int,
)
    ensures
        rect_list_spec(list_term(ts) + close_parens(j), sc, ox, oy) == Ok::<
            Seq<Rect>,
            DecodeError,
        >(rect_seq(ts, sc, ox, oy).reverse()),
    decreases ts.len(),
{
    let s = list_term(ts) + close_parens(j);
    if ts.len() == 0 {
        assert(s.subrange(0, 3) =~= nil_token());
        assert(starts_with(s, nil_token()));
        assert(is_list_end_spec(s));
        assert(rect_seq(ts, sc, ox, oy).reverse() =~= Seq::<Rect>::empty());
    } else {
        let t0 = ts[0];
        let ts1 = ts.drop_first();
        let tp = tuple_term(t0);
        lemma_canonical_head(t0.0);
        let tail_t = seq![' '] + list_term(ts1) + close_parens(j + 1);
        assert(s[0] == '(');
        assert(s[1] == '\\');
        assert(s[2] == 'z');
        assert(s[3] == '.');
        assert(s[4] == ' ');
        assert(s[5] == 'z');
        assert(s[6] == ' ');
        assert(s[7] == tp[0]);
        assert(tp[0] == '(');
        lemma_chain_not_end(s);
        lemma_find_from_at(s, 1, 7, '(');
        assert(find_from(s, 1, '(') == Some(7int));

        // One space before the tuple; the term always ends in `)`.
        let sub = s.subrange(6, s.len() as int);
        assert(close_parens(j + 1).last() == ')') by {
            assert(close_parens(j + 1)[j as int] == ')');
        }
        assert(tail_t.last() == ')');
        assert(sub =~= seq![' '] + tp + tail_t);
        assert(sub[1] == tp[0]);
        assert(sub.last() == ')');
        lemma_trim_one_leading_space(sub);
        assert(trim_spec(sub) =~= tp + tail_t);
        lemma_tuple_decode(t0, tail_t, sc, ox, oy);

        // The remainder after the rectangle: a space, then the tail chain
        // with one more stray paren.
        assert(list_term(ts1).len() >= 3);
        assert(tail_t[1] == list_term(ts1)[0]);
        assert(list_term(ts1)[0] == 'n' || list_term(ts1)[0] == '(');
        assert(!is_space(tail_t[1]));
        lemma_trim_one_leading_space(tail_t);
        assert(trim_spec(tail_t) =~= list_term(ts1) + close_parens(j + 1));
        lemma_rect_list_chain(ts1, j + 1, sc, ox, oy);

        // Appending the head after the tail's rectangles is exactly the
        // reverse of the textual order.
        let f = |t: (int, int, int, int)| transform_spec(t.0, t.1, t.2, t.3, sc, ox, oy);
        assert(rect_seq(ts1, sc, ox, oy).reverse().push(f(t0)) =~= rect_seq(
            ts,
            sc,
            ox,
            oy,
        ).reverse()) by {
            let lhs = rect_seq(ts1, sc, ox, oy).reverse().push(f(t0));
            let rhs = rect_seq(ts, sc, ox, oy).reverse();
            assert(lhs.len() == ts.len());
            assert(rhs.len() == ts.len());
            assert forall|i: int| 0 <= i < ts.len() implies lhs[i] == rhs[i] by {
                if i < ts.len() - 1 {
                    assert(lhs[i] == f(ts1[ts1.len() - 1 - i]));
                    assert(rhs[i] == f(ts[ts.len() - 1 - i]));
                    assert(ts1[ts1.len() - 1 - i] == ts[ts.len() - 1 - i]);
                } else {
                    assert(lhs[i] == f(t0));
                    assert(rhs[i] == f(ts[0]));
                }
            }
        }
    }
}

/// Law: `decodeRectList` on a terminator alone yields the empty sequence,
/// and on a chain of canonically encoded tuples terminated by `nil` yields
/// the chain's rectangles, transformed, in reverse textual order.
pub proof fn lemma_rect_list_reverse(ts: Seq<(int, int, int, int)>, sc: int, ox: int, oy: int)
    ensures
        rect_list_spec(list_term(ts), sc, ox, oy) == Ok::<Seq<Rect>, DecodeError>(
            rect_seq(ts, sc, ox, oy).reverse(),
        ),
{
    lemma_rect_list_chain(ts, 0, sc, ox, oy);
    assert(list_term(ts) + close_parens(0) =~= list_term(ts));
}

} // verus!
