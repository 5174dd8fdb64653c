//! Decoder for Church-encoded lists of rectangles.
//!
//! A response is a right-nested chain of Church pairs, each pair holding a
//! 4-tuple of CLNI integers `(x, y, width, height)` and the rest of the
//! chain, terminated by the literal token `nil` or `false` or by any term
//! that boolean-decodes to false.  Both the pair and the tuple carry a fixed
//! selector-application wrapper, so the element text always starts at the
//! second `(` of its wrapper — a structural shortcut of this encoding, kept
//! here as a documented invariant rather than generalized into a grammar.
//!
//! Decoding recurses on the tail and appends the head rectangle *after* the
//! tail's rectangles, so the decoded sequence is the reverse of the textual
//! order — an explicit, tested property (`lemma_rect_list_reverse` in
//! `rect_laws`).
//!
//! Each decoded rectangle is transformed: coordinates are scaled and offset,
//! dimensions scaled and cast unsigned, all in the wrapping 32-bit
//! arithmetic of `transform_spec`.

use vstd::arithmetic::div_mod::lemma_add_mod_noop_right;
use vstd::arithmetic::div_mod::lemma_mod_multiples_vanish;
use vstd::arithmetic::div_mod::lemma_small_mod;
use vstd::prelude::*;
use vstd::wrapping::i32_specs;

use crate::church::church_bool_spec;
use crate::church::parse_church_bool;
use crate::clni::clni_decode_spec;
use crate::clni::clni_prefix_to_int;
use crate::clni::lemma_clni_rest_len;
use crate::clni::MAX_TERM_LEN;
use crate::errors::DecodeError;
use crate::text::find_from;
use crate::text::find_from_exec;
use crate::text::lemma_trim_len;
use crate::text::starts_with;
use crate::text::trim_exec;
use crate::text::trim_spec;

verus! {

/// A screen rectangle: position and size, after the scale/offset transform.
#[derive(Debug, Clone, Copy, PartialEq, Eq, Structural)]
pub struct Rect {
    pub x: i32,
    pub y: i32,
    pub width: u32,
    pub height: u32,
}

impl Rect {
    /// Build a rectangle from its four components.
    pub fn new(x: i32, y: i32, width: u32, height: u32) -> (r: Rect)
        ensures
            r == (Rect { x, y, width, height }),
    {
        Rect { x, y, width, height }
    }
}

/// A value reduced modulo 2^32 into `u32`, as a Rust `as u32` cast of
/// 32-bit-wrapped arithmetic would produce it.
pub open spec fn crop_u32(v: int) -> u32 {
    (v % 0x1_0000_0000) as u32
}

/// The transform applied to each raw decoded tuple `(x, y, w, h)`:
/// coordinates become `x*scale + x_offset` and `y*scale + y_offset`, the
/// dimensions `w*scale` and `h*scale` cast unsigned — each reduced into its
/// 32-bit type exactly as the wrapping machine arithmetic reduces it.
pub open spec fn transform_spec(x: int, y: int, w: int, h: int, sc: int, ox: int, oy: int) -> Rect {
    Rect {
        x: i32_specs::signed_crop(x * sc + ox),
        y: i32_specs::signed_crop(y * sc + oy),
        width: crop_u32(w * sc),
        height: crop_u32(h * sc),
    }
}

/// `signed_crop` leaves a value already in `i32` range alone.
pub proof fn lemma_crop_in_range(v: int)
    requires
        i32::MIN <= v <= i32::MAX,
    ensures
        i32_specs::signed_crop(v) == v,
{
    let m = 0x1_0000_0000int;
    if v >= 0 {
        lemma_small_mod(v as nat, m as nat);
    } else {
        lemma_mod_multiples_vanish(1, v, m);
        lemma_small_mod((v + m) as nat, m as nat);
    }
}

/// `crop_u32` leaves a value already in `u32` range alone.
pub proof fn lemma_crop_u32_in_range(v: int)
    requires
        0 <= v <= u32::MAX,
    ensures
        crop_u32(v) == v,
{
    lemma_small_mod(v as nat, 0x1_0000_0000nat);
}

/// Adding to an already-cropped value and cropping again is the same as
/// cropping the exact sum: the wrapping operations compose.
pub proof fn lemma_crop_add(u: int, v: int)
    ensures
        i32_specs::signed_crop(i32_specs::signed_crop(u) as int + v) == i32_specs::signed_crop(
            u + v,
        ),
{
    let m = 0x1_0000_0000int;
    let w = i32_specs::signed_crop(u) as int;
    lemma_add_mod_noop_right(v, u, m);
    if u % m > i32::MAX as int {
        lemma_mod_multiples_vanish(-1, u % m + v, m);
        assert((w + v) % m == (u % m + v) % m);
    }
    assert((w + v) % m == (u + v) % m);
}

/// A wrapped `i32` sum is the crop of the exact sum.
pub proof fn lemma_wrapping_add_is_crop(a: i32, b: i32)
    ensures
        i32_specs::wrapping_add(a, b) == i32_specs::signed_crop(a as int + b as int),
{
    let m = 0x1_0000_0000int;
    let s = a as int + b as int;
    if s > i32::MAX as int {
        lemma_small_mod(s as nat, m as nat);
    } else if s >= 0 {
        lemma_small_mod(s as nat, m as nat);
    } else {
        lemma_mod_multiples_vanish(1, s, m);
        lemma_small_mod((s + m) as nat, m as nat);
    }
}

/// Reinterpreting a cropped signed value as unsigned gives the unsigned
/// crop.
pub proof fn lemma_crop_to_u32(v: int)
    ensures
        i32_specs::signed_crop(v) >= 0 ==> i32_specs::signed_crop(v) as u32 == crop_u32(v),
        i32_specs::signed_crop(v) < 0 ==> (i32_specs::signed_crop(v) as int
            + 0x1_0000_0000) as u32 == crop_u32(v),
{
}

/// One transformed coordinate: `v*sc + off`, wrapped.
fn transform_coord(v: i32, sc: i32, off: i32) -> (r: i32)
    ensures
        r as int == i32_specs::signed_crop(v as int * sc as int + off as int) as int,
{
    let p = v.wrapping_mul(sc);
    let r = p.wrapping_add(off);
    proof {
        lemma_wrapping_add_is_crop(p, off);
        lemma_crop_add(v as int * sc as int, off as int);
    }
    r
}

/// One transformed dimension: `v*sc`, wrapped and cast unsigned.
fn scale_dim(v: i32, sc: i32) -> (r: u32)
    ensures
        r == crop_u32(v as int * sc as int),
{
    let p = v.wrapping_mul(sc);
    proof {
        lemma_crop_to_u32(v as int * sc as int);
    }
    if p >= 0 {
        p as u32
    } else {
        ((p as i64) + 0x1_0000_0000) as u32
    }
}

/// Law: wherever the exact results fit their types, the transform is plain
/// arithmetic — the decoded rectangle is
/// `(x*s + ox, y*s + oy, w*s as unsigned, h*s as unsigned)`.
pub proof fn lemma_transform_in_range(x: int, y: int, w: int, h: int, sc: int, ox: int, oy: int)
    requires
        i32::MIN <= x * sc + ox <= i32::MAX,
        i32::MIN <= y * sc + oy <= i32::MAX,
        0 <= w * sc <= u32::MAX,
        0 <= h * sc <= u32::MAX,
    ensures
        transform_spec(x, y, w, h, sc, ox, oy) == (Rect {
            x: (x * sc + ox) as i32,
            y: (y * sc + oy) as i32,
            width: (w * sc) as u32,
            height: (h * sc) as u32,
        }),
{
    lemma_crop_in_range(x * sc + ox);
    lemma_crop_in_range(y * sc + oy);
    lemma_crop_u32_in_range(w * sc);
    lemma_crop_u32_in_range(h * sc);
}

/// The token that ends a rectangle list.
pub open spec fn nil_token() -> Seq<char> {
    seq!['n', 'i', 'l']
}

/// The other literal terminator token.
pub open spec fn false_token() -> Seq<char> {
    seq!['f', 'a', 'l', 's', 'e']
}

/// A term ends the list when it starts with a terminator token or decodes
/// to the Church boolean `false`.
pub open spec fn is_list_end_spec(s: Seq<char>) -> bool {
    starts_with(s, nil_token()) || starts_with(s, false_token()) || church_bool_spec(s) == Ok::<
        bool,
        DecodeError,
    >(false)
}

/// Executable check that `s` starts with the given short token.
fn starts_with_token(s: &str, t: &str) -> (b: bool)
    ensures
        b == starts_with(s@, t@),
{
    let nt = t.unicode_len();
    let n = s.unicode_len();
    if n < nt {
        return false;
    }
    let mut i: usize = 0;
    while i < nt
        invariant
            0 <= i <= nt,
            nt <= n,
            n == s@.len(),
            nt == t@.len(),
            forall|k: int| 0 <= k < i ==> s@[k] == t@[k],
        decreases nt - i,
    {
        if s.get_char(i) != t.get_char(i) {
            assert(s@.subrange(0, t@.len() as int)[i as int] != t@[i as int]);
            return false;
        }
        i = i + 1;
    }
    proof {
        assert(s@.subrange(0, t@.len() as int) =~= t@);
    }
    true
}

/// Is this term a list terminator?  True for the literal tokens `nil` and
/// `false` and for any term that boolean-decodes to `false`.
pub fn is_list_end(s: &str) -> (b: bool)
    ensures
        b == is_list_end_spec(s@),
{
    if starts_with_token(s, "nil") {
        proof {
            reveal_strlit("nil");
            assert("nil"@ =~= nil_token());
        }
        return true;
    }
    if starts_with_token(s, "false") {
        proof {
            reveal_strlit("false");
            assert("false"@ =~= false_token());
        }
        return true;
    }
    proof {
        reveal_strlit("nil");
        reveal_strlit("false");
        assert("nil"@ =~= nil_token());
        assert("false"@ =~= false_token());
    }
    match parse_church_bool(s) {
        Ok(b) => !b,
        Err(_) => false,
    }
}

/// What decoding one rectangle from the head of `s` yields: the text from
/// one character before its second `(` is trimmed, four CLNI integers are
/// decoded back to back with trimming in between, one trailing `)` is
/// consumed if present, and the transform is applied.
pub open spec fn rect_spec(s: Seq<char>, sc: int, ox: int, oy: int) -> Result<
    (Rect, Seq<char>),
    DecodeError,
> {
    if s.len() == 0 {
        Err(DecodeError::EmptyTerm)
    } else if s[0] != '(' {
        Err(DecodeError::MissingOpenParen)
    } else {
        match find_from(s, 1, '(') {
            None => Err(DecodeError::MissingSecondParen),
            Some(q) => {
                let t0 = trim_spec(s.subrange(q - 1, s.len() as int));
                match clni_decode_spec(t0) {
                    Err(e) => Err(e),
                    Ok((x, r1)) => match clni_decode_spec(trim_spec(r1)) {
                        Err(e) => Err(e),
                        Ok((y, r2)) => match clni_decode_spec(trim_spec(r2)) {
                            Err(e) => Err(e),
                            Ok((w, r3)) => match clni_decode_spec(trim_spec(r3)) {
                                Err(e) => Err(e),
                                Ok((h, r4)) => {
                                    let r5 = if r4.len() > 0 && r4[0] == ')' {
                                        r4.drop_first()
                                    } else {
                                        r4
                                    };
                                    Ok((transform_spec(x, y, w, h, sc, ox, oy), r5))
                                },
                            },
                        },
                    },
                }
            },
        }
    }
}

/// A successfully decoded rectangle leaves a strictly shorter remainder.
pub proof fn lemma_rect_rest_len(s: Seq<char>, sc: int, ox: int, oy: int)
    ensures
        match rect_spec(s, sc, ox, oy) {
            Ok(p) => p.1.len() < s.len(),
            Err(_) => true,
        },
{
    if s.len() > 0 && s[0] == '(' {
        match find_from(s, 1, '(') {
            None => {},
            Some(q) => {
                crate::text::lemma_find_from_props(s, 1, '(');
                let sub = s.subrange(q - 1, s.len() as int);
                let t0 = trim_spec(sub);
                lemma_trim_len(sub);
                lemma_clni_rest_len(t0);
                match clni_decode_spec(t0) {
                    Err(_) => {},
                    Ok((x, r1)) => {
                        lemma_trim_len(r1);
                        lemma_clni_rest_len(trim_spec(r1));
                        match clni_decode_spec(trim_spec(r1)) {
                            Err(_) => {},
                            Ok((y, r2)) => {
                                lemma_trim_len(r2);
                                lemma_clni_rest_len(trim_spec(r2));
                                match clni_decode_spec(trim_spec(r2)) {
                                    Err(_) => {},
                                    Ok((w, r3)) => {
                                        lemma_trim_len(r3);
                                        lemma_clni_rest_len(trim_spec(r3));
                                    },
                                }
                            },
                        }
                    },
                }
            },
        }
    }
}

/// What decoding a whole rectangle list from `s` yields: the empty sequence
/// on a terminator, and otherwise one rectangle decoded from the head chain
/// link, appended *after* the recursively decoded tail — the decoded order
/// is the reverse of the textual order.
pub open spec fn rect_list_spec(s: Seq<char>, sc: int, ox: int, oy: int) -> Result<
    Seq<Rect>,
    DecodeError,
>
    decreases s.len(),
    via rect_list_spec_dec
{
    if is_list_end_spec(s) {
        Ok(Seq::empty())
    } else if s.len() == 0 || s[0] != '(' {
        Err(DecodeError::MissingOpenParen)
    } else {
        match find_from(s, 1, '(') {
            None => Err(DecodeError::MissingSecondParen),
            Some(q) => match rect_spec(
                trim_spec(s.subrange(q - 1, s.len() as int)),
                sc,
                ox,
                oy,
            ) {
                Err(e) => Err(e),
                Ok((rect, rest)) => match rect_list_spec(trim_spec(rest), sc, ox, oy) {
                    Err(e) => Err(e),
                    Ok(tail) => Ok(tail.push(rect)),
                },
            },
        }
    }
}

#[via_fn]
proof fn rect_list_spec_dec(s: Seq<char>, sc: int, ox: int, oy: int) {
    if !is_list_end_spec(s) && s.len() > 0 && s[0] == '(' {
        match find_from(s, 1, '(') {
            None => {},
            Some(q) => {
                crate::text::lemma_find_from_props(s, 1, '(');
                let sub = s.subrange(q - 1, s.len() as int);
                let t = trim_spec(sub);
                lemma_trim_len(sub);
                lemma_rect_rest_len(t, sc, ox, oy);
                match rect_spec(t, sc, ox, oy) {
                    Err(_) => {},
                    Ok((rect, rest)) => {
                        lemma_trim_len(rest);
                    },
                }
            },
        }
    }
}

/// Decode one rectangle from the head of `s`, returning it with the
/// remaining text, exactly as `rect_spec` describes.
pub fn parse_rect<'a>(s: &'a str, scaling_factor: i32, x_offset: i32, y_offset: i32) -> (r: Result<
    (Rect, &'a str),
    DecodeError,
>)
    requires
        s@.len() <= MAX_TERM_LEN,
    ensures
        match r {
            Ok((rect, rest)) => rect_spec(
                s@,
                scaling_factor as int,
                x_offset as int,
                y_offset as int,
            ) == Ok::<(Rect, Seq<char>), DecodeError>((rect, rest@)) && rest@.len() < s@.len(),
            Err(e) => rect_spec(s@, scaling_factor as int, x_offset as int, y_offset as int)
                == Err::<(Rect, Seq<char>), DecodeError>(e),
        },
{
    let n = s.unicode_len();
    if n == 0 {
        return Err(DecodeError::EmptyTerm);
    }
    if s.get_char(0) != '(' {
        return Err(DecodeError::MissingOpenParen);
    }
    let q = match find_from_exec(s, 1, '(') {
        None => {
            return Err(DecodeError::MissingSecondParen);
        },
        Some(q) => q,
    };
    let t0 = trim_exec(s.substring_char(q - 1, n));
    let (x, r1) = match clni_prefix_to_int(t0) {
        Err(e) => {
            return Err(e);
        },
        Ok(p) => p,
    };
    proof {
        lemma_clni_rest_len(t0@);
    }
    let t1 = trim_exec(r1);
    let (y, r2) = match clni_prefix_to_int(t1) {
        Err(e) => {
            return Err(e);
        },
        Ok(p) => p,
    };
    proof {
        lemma_clni_rest_len(t1@);
    }
    let t2 = trim_exec(r2);
    let (w, r3) = match clni_prefix_to_int(t2) {
        Err(e) => {
            return Err(e);
        },
        Ok(p) => p,
    };
    proof {
        lemma_clni_rest_len(t2@);
    }
    let t3 = trim_exec(r3);
    let (h, r4) = match clni_prefix_to_int(t3) {
        Err(e) => {
            return Err(e);
        },
        Ok(p) => p,
    };
    proof {
        lemma_clni_rest_len(t3@);
    }
    let r4_len = r4.unicode_len();
    let rest = if r4_len > 0 && r4.get_char(0) == ')' {
        proof {
            assert(r4@.subrange(1, r4@.len() as int) =~= r4@.drop_first());
        }
        r4.substring_char(1, r4_len)
    } else {
        r4
    };
    let rect = Rect {
        x: transform_coord(x, scaling_factor, x_offset),
        y: transform_coord(y, scaling_factor, y_offset),
        width: scale_dim(w, scaling_factor),
        height: scale_dim(h, scaling_factor),
    };
    Ok((rect, rest))
}

/// Decode a whole Church-encoded rectangle list, exactly as
/// `rect_list_spec` describes: empty on a terminator token, and otherwise
/// the rectangles of the chain in reverse textual order, each transformed
/// by the given scale and offsets.
pub fn parse_rect_list(s: &str, scaling_factor: i32, x_offset: i32, y_offset: i32) -> (r: Result<
    Vec<Rect>,
    DecodeError,
>)
    requires
        s@.len() <= MAX_TERM_LEN,
    ensures
        match r {
            Ok(v) => rect_list_spec(s@, scaling_factor as int, x_offset as int, y_offset as int)
                == Ok::<Seq<Rect>, DecodeError>(v@),
            Err(e) => rect_list_spec(s@, scaling_factor as int, x_offset as int, y_offset as int)
                == Err::<Seq<Rect>, DecodeError>(e),
        },
    decreases s@.len(),
{
    if is_list_end(s) {
        return Ok(Vec::new());
    }
    let n = s.unicode_len();
    if n == 0 {
        return Err(DecodeError::MissingOpenParen);
    }
    if s.get_char(0) != '(' {
        return Err(DecodeError::MissingOpenParen);
    }
    let q = match find_from_exec(s, 1, '(') {
        None => {
            return Err(DecodeError::MissingSecondParen);
        },
        Some(q) => q,
    };
    let t = trim_exec(s.substring_char(q - 1, n));
    let (rect, rest) = match parse_rect(t, scaling_factor, x_offset, y_offset) {
        Err(e) => {
            return Err(e);
        },
        Ok(p) => p,
    };
    let tail_text = trim_exec(rest);
    let mut rect_list = match parse_rect_list(tail_text, scaling_factor, x_offset, y_offset) {
        Err(e) => {
            return Err(e);
        },
        Ok(v) => v,
    };
    rect_list.push(rect);
    Ok(rect_list)
}

} // verus!
