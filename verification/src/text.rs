//! Character-level scanning primitives shared by the decoders.
//!
//! Every decoder in this crate is specified against small recursive spec
//! functions over `Seq<char>`; the executable scanners here compute them with
//! loops.  Each spec function comes with a characterization lemma that pins
//! its value down once the content of the scanned region is known; the shape
//! lemmas about concrete term forms are built from those.

use vstd::prelude::*;

verus! {

/// The whitespace characters trimmed around term fragments.
pub open spec fn is_space(c: char) -> bool {
    c == ' ' || c == '\t' || c == '\n' || c == '\r'
}

/// ASCII letters and digits: what a bound-variable name is made of.
pub open spec fn is_alnum(c: char) -> bool {
    let u = c as u32;
    (97 <= u && u <= 122) || (65 <= u && u <= 90) || (48 <= u && u <= 57)
}

pub fn is_space_char(c: char) -> (b: bool)
    ensures
        b == is_space(c),
{
    c == ' ' || c == '\t' || c == '\n' || c == '\r'
}

pub fn is_alnum_char(c: char) -> (b: bool)
    ensures
        b == is_alnum(c),
{
    let u = c as u32;
    (97 <= u && u <= 122) || (65 <= u && u <= 90) || (48 <= u && u <= 57)
}

/// Index of the first occurrence of `c` at or after `i`, if any.
pub open spec fn find_from(s: Seq<char>, i: int, c: char) -> Option<int>
    decreases s.len() - i,
{
    if i < 0 || i >= s.len() {
        None
    } else if s[i] == c {
        Some(i)
    } else {
        find_from(s, i + 1, c)
    }
}

/// Index of the first non-alphanumeric character at or after `i`; `None` if
/// the run of alphanumerics reaches the end of the sequence.
pub open spec fn alnum_end_from(s: Seq<char>, i: int) -> Option<int>
    decreases s.len() - i,
{
    if i < 0 || i >= s.len() {
        None
    } else if !is_alnum(s[i]) {
        Some(i)
    } else {
        alnum_end_from(s, i + 1)
    }
}

/// Index of the first character at or after `i` that is not a literal space.
pub open spec fn skip_blanks_from(s: Seq<char>, i: int) -> int
    decreases s.len() - i,
{
    if 0 <= i && i < s.len() && s[i] == ' ' {
        skip_blanks_from(s, i + 1)
    } else {
        i
    }
}

/// Index of the first character at or after `i` that is not whitespace.
pub open spec fn skip_ws_from(s: Seq<char>, i: int) -> int
    decreases s.len() - i,
{
    if 0 <= i && i < s.len() && is_space(s[i]) {
        skip_ws_from(s, i + 1)
    } else {
        i
    }
}

/// Largest `j <= hi` such that `s[j..hi)` is all whitespace, not going below
/// `lo`.
pub open spec fn rskip_ws(s: Seq<char>, lo: int, hi: int) -> int
    decreases hi - lo,
{
    if lo < hi && hi <= s.len() && is_space(s[hi - 1]) {
        rskip_ws(s, lo, hi - 1)
    } else {
        hi
    }
}

/// Largest `j <= hi` such that `s[j..hi)` is all `)`, not going below `lo`.
pub open spec fn rskip_parens(s: Seq<char>, lo: int, hi: int) -> int
    decreases hi - lo,
{
    if lo < hi && hi <= s.len() && s[hi - 1] == ')' {
        rskip_parens(s, lo, hi - 1)
    } else {
        hi
    }
}

/// What `str::trim` leaves: the subrange with leading and trailing
/// whitespace removed.
pub open spec fn trim_spec(s: Seq<char>) -> Seq<char> {
    let lo = skip_ws_from(s, 0);
    let hi = rskip_ws(s, lo, s.len() as int);
    s.subrange(lo, hi)
}

/// `s` begins with the token `p`.
pub open spec fn starts_with(s: Seq<char>, p: Seq<char>) -> bool {
    p.len() <= s.len() && s.subrange(0, p.len() as int) == p
}

/// Pins `find_from` down: if `s[i..j)` avoids `c` and `j` is either the end
/// or an occurrence of `c`, the search from `i` lands exactly there.
pub proof fn lemma_find_from_at(s: Seq<char>, i: int, j: int, c: char)
    requires
        0 <= i <= j <= s.len(),
        forall|k: int| i <= k < j ==> s[k] != c,
        j < s.len() ==> s[j] == c,
    ensures
        find_from(s, i, c) == if j == s.len() {
            None::<int>
        } else {
            Some(j)
        },
    decreases j - i,
{
    if i < j {
        lemma_find_from_at(s, i + 1, j, c);
    }
}

/// Bounds and content of a successful or failed `find_from` search.
pub proof fn lemma_find_from_props(s: Seq<char>, i: int, c: char)
    requires
        0 <= i <= s.len(),
    ensures
        match find_from(s, i, c) {
            Some(j) => i <= j < s.len() && s[j] == c && forall|k: int| i <= k < j ==> s[k] != c,
            None => forall|k: int| i <= k < s.len() ==> s[k] != c,
        },
    decreases s.len() - i,
{
    if i < s.len() && s[i] != c {
        lemma_find_from_props(s, i + 1, c);
    }
}

/// Pins `alnum_end_from` down over a known alphanumeric run.
pub proof fn lemma_alnum_end_at(s: Seq<char>, i: int, j: int)
    requires
        0 <= i <= j <= s.len(),
        forall|k: int| i <= k < j ==> is_alnum(s[k]),
        j < s.len() ==> !is_alnum(s[j]),
    ensures
        alnum_end_from(s, i) == if j == s.len() {
            None::<int>
        } else {
            Some(j)
        },
    decreases j - i,
{
    if i < j {
        lemma_alnum_end_at(s, i + 1, j);
    }
}


/// Pins `skip_blanks_from` down over a known run of spaces.
pub proof fn lemma_skip_blanks_at(s: Seq<char>, i: int, j: int)
    requires
        0 <= i <= j <= s.len(),
        forall|k: int| i <= k < j ==> s[k] == ' ',
        j < s.len() ==> s[j] != ' ',
    ensures
        skip_blanks_from(s, i) == j,
    decreases j - i,
{
    if i < j {
        lemma_skip_blanks_at(s, i + 1, j);
    }
}


/// Pins `skip_ws_from` down over a known run of whitespace.
pub proof fn lemma_skip_ws_at(s: Seq<char>, i: int, j: int)
    requires
        0 <= i <= j <= s.len(),
        forall|k: int| i <= k < j ==> is_space(s[k]),
        j < s.len() ==> !is_space(s[j]),
    ensures
        skip_ws_from(s, i) == j,
    decreases j - i,
{
    if i < j {
        lemma_skip_ws_at(s, i + 1, j);
    }
}

/// Bounds and content of `skip_ws_from`.
pub proof fn lemma_skip_ws_props(s: Seq<char>, i: int)
    requires
        0 <= i <= s.len(),
    ensures
        i <= skip_ws_from(s, i) <= s.len(),
        forall|k: int| i <= k < skip_ws_from(s, i) ==> is_space(s[k]),
        skip_ws_from(s, i) < s.len() ==> !is_space(s[skip_ws_from(s, i)]),
    decreases s.len() - i,
{
    if i < s.len() && is_space(s[i]) {
        lemma_skip_ws_props(s, i + 1);
    }
}

/// Pins `rskip_ws` down over a known trailing run of whitespace.
pub proof fn lemma_rskip_ws_at(s: Seq<char>, lo: int, j: int, hi: int)
    requires
        0 <= lo <= j <= hi <= s.len(),
        forall|k: int| j <= k < hi ==> is_space(s[k]),
        j > lo ==> !is_space(s[j - 1]),
    ensures
        rskip_ws(s, lo, hi) == j,
    decreases hi - j,
{
    if j < hi {
        lemma_rskip_ws_at(s, lo, j, hi - 1);
    }
}

/// Bounds and content of `rskip_ws`.
pub proof fn lemma_rskip_ws_props(s: Seq<char>, lo: int, hi: int)
    requires
        0 <= lo <= hi <= s.len(),
    ensures
        lo <= rskip_ws(s, lo, hi) <= hi,
        forall|k: int| rskip_ws(s, lo, hi) <= k < hi ==> is_space(s[k]),
        rskip_ws(s, lo, hi) > lo ==> !is_space(s[rskip_ws(s, lo, hi) - 1]),
    decreases hi - lo,
{
    if lo < hi && is_space(s[hi - 1]) {
        lemma_rskip_ws_props(s, lo, hi - 1);
    }
}

/// Pins `rskip_parens` down over a known trailing run of `)`.
pub proof fn lemma_rskip_parens_at(s: Seq<char>, lo: int, j: int, hi: int)
    requires
        0 <= lo <= j <= hi <= s.len(),
        forall|k: int| j <= k < hi ==> s[k] == ')',
        j > lo ==> s[j - 1] != ')',
    ensures
        rskip_parens(s, lo, hi) == j,
    decreases hi - j,
{
    if j < hi {
        lemma_rskip_parens_at(s, lo, j, hi - 1);
    }
}


/// The trimmed view is a subrange, so never longer than the input.
pub proof fn lemma_trim_len(s: Seq<char>)
    ensures
        trim_spec(s).len() <= s.len(),
{
    lemma_skip_ws_props(s, 0);
    lemma_rskip_ws_props(s, skip_ws_from(s, 0), s.len() as int);
}


/// Trimming a sequence that carries exactly one leading space and ends on a
/// non-space drops just that space.
pub proof fn lemma_trim_one_leading_space(s: Seq<char>)
    requires
        s.len() >= 2,
        s[0] == ' ',
        !is_space(s[1]),
        !is_space(s[s.len() - 1]),
    ensures
        trim_spec(s) == s.subrange(1, s.len() as int),
{
    lemma_skip_ws_at(s, 0, 1);
    lemma_rskip_ws_at(s, 1, s.len() as int, s.len() as int);
}

/// Executable search for `find_from`.
pub fn find_from_exec(s: &str, start: usize, c: char) -> (r: Option<usize>)
    requires
        start <= s@.len(),
    ensures
        match r {
            Some(j) => find_from(s@, start as int, c) == Some(j as int) && start <= j < s@.len()
                && s@[j as int] == c,
            None => find_from(s@, start as int, c) == None::<int>,
        },
{
    let n = s.unicode_len();
    let mut i: usize = start;
    while i < n
        invariant
            start <= i <= n,
            n == s@.len(),
            find_from(s@, start as int, c) == find_from(s@, i as int, c),
        decreases n - i,
    {
        if s.get_char(i) == c {
            return Some(i);
        }
        i = i + 1;
    }
    None
}

/// Executable search for `alnum_end_from`.
pub fn alnum_end_exec(s: &str, start: usize) -> (r: Option<usize>)
    requires
        start <= s@.len(),
    ensures
        match r {
            Some(j) => alnum_end_from(s@, start as int) == Some(j as int) && start <= j
                < s@.len(),
            None => alnum_end_from(s@, start as int) == None::<int>,
        },
{
    let n = s.unicode_len();
    let mut i: usize = start;
    while i < n
        invariant
            start <= i <= n,
            n == s@.len(),
            alnum_end_from(s@, start as int) == alnum_end_from(s@, i as int),
        decreases n - i,
    {
        if !is_alnum_char(s.get_char(i)) {
            return Some(i);
        }
        i = i + 1;
    }
    None
}

/// Executable `skip_blanks_from`.
pub fn skip_blanks_exec(s: &str, start: usize) -> (r: usize)
    requires
        start <= s@.len(),
    ensures
        r as int == skip_blanks_from(s@, start as int),
        start <= r <= s@.len(),
{
    let n = s.unicode_len();
    let mut i: usize = start;
    while i < n && s.get_char(i) == ' '
        invariant
            start <= i <= n,
            n == s@.len(),
            skip_blanks_from(s@, start as int) == skip_blanks_from(s@, i as int),
        decreases n - i,
    {
        i = i + 1;
    }
    i
}

/// Executable trim, returning the same slice `str::trim` would.
pub fn trim_exec<'a>(s: &'a str) -> (r: &'a str)
    ensures
        r@ == trim_spec(s@),
        r@.len() <= s@.len(),
{
    let n = s.unicode_len();
    let mut lo: usize = 0;
    while lo < n && is_space_char(s.get_char(lo))
        invariant
            0 <= lo <= n,
            n == s@.len(),
            skip_ws_from(s@, 0) == skip_ws_from(s@, lo as int),
        decreases n - lo,
    {
        lo = lo + 1;
    }
    let mut hi: usize = n;
    while hi > lo && is_space_char(s.get_char(hi - 1))
        invariant
            lo <= hi <= n,
            n == s@.len(),
            rskip_ws(s@, lo as int, n as int) == rskip_ws(s@, lo as int, hi as int),
        decreases hi,
    {
        hi = hi - 1;
    }
    s.substring_char(lo, hi)
}

/// Compare two subranges of the same string for equality, character by
/// character.
pub fn ranges_eq(s: &str, a: usize, b: usize, c: usize, d: usize) -> (r: bool)
    requires
        a <= b <= s@.len(),
        c <= d <= s@.len(),
    ensures
        r == (s@.subrange(a as int, b as int) == s@.subrange(c as int, d as int)),
{
    if b - a != d - c {
        assert(s@.subrange(a as int, b as int).len() != s@.subrange(c as int, d as int).len());
        return false;
    }
    let len = b - a;
    let mut i: usize = 0;
    while i < len
        invariant
            0 <= i <= len,
            len == b - a,
            len == d - c,
            a <= b <= s@.len(),
            c <= d <= s@.len(),
            forall|k: int| 0 <= k < i ==> s@[a + k] == #[trigger] s@[c + k],
        decreases len - i,
    {
        if s.get_char(a + i) != s.get_char(c + i) {
            assert(s@.subrange(a as int, b as int)[i as int] != s@.subrange(
                c as int,
                d as int,
            )[i as int]);
            return false;
        }
        i = i + 1;
    }
    proof {
        assert forall|k: int| 0 <= k < (b - a) implies s@.subrange(a as int, b as int)[k]
            == s@.subrange(c as int, d as int)[k] by {
            assert(s@[a + k] == s@[c + k]);
        }
        assert(s@.subrange(a as int, b as int) =~= s@.subrange(c as int, d as int));
    }
    true
}

} // verus!
