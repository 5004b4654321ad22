//! Character-level text utilities shared by the request parser and the
//! command extractor: whitespace trimming, prefix tests, and decimal digits.

use vstd::prelude::*;

verus! {

/// The whitespace characters that the protocol trims: the ASCII ones that
/// occur in HTTP framing and hand-typed JSON bodies.
pub open spec fn is_space(c: char) -> bool {
    c == ' ' || c == '\t' || c == '\n' || c == '\r'
}

/// Executable mirror of [`is_space`].
pub fn is_space_char(c: char) -> (r: bool)
    ensures
        r == is_space(c),
{
    c == ' ' || c == '\t' || c == '\n' || c == '\r'
}

/// `s` with its leading whitespace removed.
pub open spec fn trim_start(s: Seq<char>) -> Seq<char>
    decreases s.len(),
{
    if s.len() > 0 && is_space(s[0]) {
        trim_start(s.drop_first())
    } else {
        s
    }
}

/// `s` with its trailing whitespace removed.
pub open spec fn trim_end(s: Seq<char>) -> Seq<char>
    decreases s.len(),
{
    if s.len() > 0 && is_space(s.last()) {
        trim_end(s.drop_last())
    } else {
        s
    }
}

/// `s` with whitespace removed at both ends.
pub open spec fn trim(s: Seq<char>) -> Seq<char> {
    trim_end(trim_start(s))
}

/// Skipping a run of leading spaces does not change what `trim_start` keeps.
pub proof fn lemma_trim_start_skip(s: Seq<char>, i: int)
    requires
        0 <= i <= s.len(),
        forall|k: int| 0 <= k < i ==> is_space(s[k]),
    ensures
        trim_start(s) == trim_start(s.subrange(i, s.len() as int)),
    decreases i,
{
    if i == 0 {
        assert(s.subrange(0, s.len() as int) =~= s);
    } else {
        assert(is_space(s[0]));
        assert(s.drop_first() =~= s.subrange(1, s.len() as int));
        lemma_trim_start_skip(s.subrange(1, s.len() as int), i - 1);
        assert(s.subrange(1, s.len() as int).subrange(i - 1, s.len() - 1) =~= s.subrange(
            i,
            s.len() as int,
        ));
    }
}

/// `trim_start` keeps a sequence that does not begin with a space.
pub proof fn lemma_trim_start_id(s: Seq<char>)
    requires
        s.len() == 0 || !is_space(s[0]),
    ensures
        trim_start(s) == s,
{
}

/// Dropping a run of trailing spaces does not change what `trim_end` keeps.
pub proof fn lemma_trim_end_skip(s: Seq<char>, j: int)
    requires
        0 <= j <= s.len(),
        forall|k: int| j <= k < s.len() ==> is_space(s[k]),
    ensures
        trim_end(s) == trim_end(s.subrange(0, j)),
    decreases s.len() - j,
{
    if j == s.len() {
        assert(s.subrange(0, s.len() as int) =~= s);
    } else {
        assert(is_space(s.last()));
        assert(s.drop_last() =~= s.subrange(0, s.len() - 1));
        lemma_trim_end_skip(s.subrange(0, s.len() - 1), j);
        assert(s.subrange(0, s.len() - 1).subrange(0, j) =~= s.subrange(0, j));
    }
}

/// `trim_end` keeps a sequence that does not end with a space.
pub proof fn lemma_trim_end_id(s: Seq<char>)
    requires
        s.len() == 0 || !is_space(s.last()),
    ensures
        trim_end(s) == s,
{
}

/// A sequence that neither begins nor ends with a space is its own trim.
pub proof fn lemma_trim_id(s: Seq<char>)
    requires
        s.len() == 0 || (!is_space(s[0]) && !is_space(s.last())),
    ensures
        trim(s) == s,
{
    lemma_trim_start_id(s);
    lemma_trim_end_id(s);
}

/// Locates the trimmed span of `s@` between character positions `lo` and `hi`:
/// the returned pair `(a, b)` satisfies `lo <= a <= b <= hi` and
/// `s@.subrange(a, b)` is exactly `trim(s@.subrange(lo, hi))`.
pub fn trim_bounds(s: &str, lo: usize, hi: usize) -> (r: (usize, usize))
    requires
        lo <= hi <= s@.len(),
    ensures
        lo <= r.0 <= r.1 <= hi,
        s@.subrange(r.0 as int, r.1 as int) == trim(s@.subrange(lo as int, hi as int)),
{
    let ghost whole = s@.subrange(lo as int, hi as int);
    let mut a: usize = lo;
    while a < hi && is_space_char(s.get_char(a))
        invariant
            lo <= a <= hi <= s@.len(),
            forall|k: int| lo <= k < a ==> is_space(s@[k]),
        decreases hi - a,
    {
        a = a + 1;
    }
    proof {
        lemma_trim_start_skip(whole, a - lo);
        assert(whole.subrange(a - lo, whole.len() as int) =~= s@.subrange(a as int, hi as int));
        lemma_trim_start_id(s@.subrange(a as int, hi as int));
        assert(trim_start(whole) == s@.subrange(a as int, hi as int));
    }
    let mut b: usize = hi;
    while b > a && is_space_char(s.get_char(b - 1))
        invariant
            lo <= a <= b <= hi <= s@.len(),
            forall|k: int| b <= k < hi ==> is_space(s@[k]),
        decreases b - a,
    {
        b = b - 1;
    }
    proof {
        let kept = s@.subrange(a as int, hi as int);
        lemma_trim_end_skip(kept, b - a);
        assert(kept.subrange(0, b - a) =~= s@.subrange(a as int, b as int));
        lemma_trim_end_id(s@.subrange(a as int, b as int));
        assert(trim(whole) == s@.subrange(a as int, b as int));
    }
    (a, b)
}

/// `p` is a prefix of `s`.
pub open spec fn has_prefix(s: Seq<char>, p: Seq<char>) -> bool {
    p.len() <= s.len() && s.subrange(0, p.len() as int) == p
}

/// Whether `p@` is a prefix of the character span `s@.subrange(lo, hi)`.
pub fn range_has_prefix(s: &str, lo: usize, hi: usize, p: &str) -> (r: bool)
    requires
        lo <= hi <= s@.len(),
    ensures
        r == has_prefix(s@.subrange(lo as int, hi as int), p@),
{
    let pn = p.unicode_len();
    if hi - lo < pn {
        return false;
    }
    let mut k: usize = 0;
    while k < pn
        invariant
            k <= pn == p@.len(),
            lo + pn <= hi <= s@.len(),
            forall|j: int| 0 <= j < k ==> s@[lo + j] == p@[j],
        decreases pn - k,
    {
        if s.get_char(lo + k) != p.get_char(k) {
            assert(s@.subrange(lo as int, hi as int).subrange(0, pn as int)[k as int]
                != p@[k as int]);
            return false;
        }
        k = k + 1;
    }
    assert(s@.subrange(lo as int, hi as int).subrange(0, pn as int) =~= p@);
    true
}

/// `c` matches `l` up to ASCII case, where `l` is the lower-case reference.
pub open spec fn eq_ascii_ci(c: char, l: char) -> bool {
    c == l || (97 <= l as u32 <= 122 && c as u32 + 32 == l as u32)
}

/// `p` (written in lower case) is a prefix of `s` up to ASCII case.
pub open spec fn has_prefix_ci(s: Seq<char>, p: Seq<char>) -> bool {
    p.len() <= s.len() && forall|j: int| 0 <= j < p.len() ==> eq_ascii_ci(s[j], p[j])
}

/// Whether `p@` (written in lower case) is an ASCII-case-insensitive prefix
/// of the character span `s@.subrange(lo, hi)`.
pub fn range_has_prefix_ci(s: &str, lo: usize, hi: usize, p: &str) -> (r: bool)
    requires
        lo <= hi <= s@.len(),
    ensures
        r == has_prefix_ci(s@.subrange(lo as int, hi as int), p@),
{
    let pn = p.unicode_len();
    if hi - lo < pn {
        return false;
    }
    let mut k: usize = 0;
    while k < pn
        invariant
            k <= pn == p@.len(),
            lo + pn <= hi <= s@.len(),
            forall|j: int| 0 <= j < k ==> eq_ascii_ci(s@[lo + j], p@[j]),
        decreases pn - k,
    {
        let c = s.get_char(lo + k);
        let l = p.get_char(k);
        let lc = l as u32;
        let cc = c as u32;
        if !(c == l || (97 <= lc && lc <= 122 && cc + 32 == lc)) {
            assert(!eq_ascii_ci(s@.subrange(lo as int, hi as int)[k as int], p@[k as int]));
            return false;
        }
        k = k + 1;
    }
    true
}

/// The index of the first occurrence of `c` in `s`, or `-1` if `c` is absent.
pub open spec fn find_char(s: Seq<char>, c: char) -> int
    decreases s.len(),
{
    if s.len() == 0 {
        -1
    } else if s[0] == c {
        0
    } else {
        let r = find_char(s.drop_first(), c);
        if r == -1 {
            -1
        } else {
            r + 1
        }
    }
}

/// If everything before `i` differs from `c` and `s[i] == c`, then `i` is
/// where `find_char` points.
pub proof fn lemma_find_char_at(s: Seq<char>, c: char, i: int)
    requires
        0 <= i < s.len(),
        forall|k: int| 0 <= k < i ==> s[k] != c,
        s[i] == c,
    ensures
        find_char(s, c) == i,
    decreases i,
{
    if i > 0 {
        lemma_find_char_at(s.drop_first(), c, i - 1);
    }
}

/// If `c` occurs nowhere in `s`, `find_char` reports its absence.
pub proof fn lemma_find_char_none(s: Seq<char>, c: char)
    requires
        forall|k: int| 0 <= k < s.len() ==> s[k] != c,
    ensures
        find_char(s, c) == -1,
    decreases s.len(),
{
    if s.len() > 0 {
        lemma_find_char_none(s.drop_first(), c);
    }
}

/// Finds the first occurrence of `c` within the character span
/// `s@.subrange(lo, hi)`, reported as an absolute position in `s@`.
pub fn range_find_char(s: &str, lo: usize, hi: usize, c: char) -> (r: Option<usize>)
    requires
        lo <= hi <= s@.len(),
    ensures
        match r {
            Some(i) => lo <= i < hi && find_char(s@.subrange(lo as int, hi as int), c) == i - lo,
            None => find_char(s@.subrange(lo as int, hi as int), c) == -1,
        },
{
    let mut k: usize = lo;
    while k < hi
        invariant
            lo <= k <= hi <= s@.len(),
            forall|j: int| lo <= j < k ==> s@[j] != c,
        decreases hi - k,
    {
        if s.get_char(k) == c {
            proof {
                lemma_find_char_at(s@.subrange(lo as int, hi as int), c, k - lo);
            }
            return Some(k);
        }
        k = k + 1;
    }
    proof {
        lemma_find_char_none(s@.subrange(lo as int, hi as int), c);
    }
    None
}

/// `c` is an ASCII decimal digit.
pub open spec fn is_digit(c: char) -> bool {
    48 <= c as u32 <= 57
}

/// The numeric value of the digit `c`.
pub open spec fn digit_val(c: char) -> nat {
    (c as u32 - 48) as nat
}

/// Every character of `s` is a decimal digit.
pub open spec fn all_digits(s: Seq<char>) -> bool {
    forall|k: int| 0 <= k < s.len() ==> is_digit(s[k])
}

/// The number that the digit string `s` denotes in base ten.
pub open spec fn digits_value(s: Seq<char>) -> nat
    decreases s.len(),
{
    if s.len() == 0 {
        0
    } else {
        digits_value(s.drop_last()) * 10 + digit_val(s.last())
    }
}

/// A digit string denotes at least as much as any of its prefixes.
pub proof fn lemma_digits_value_mono(s: Seq<char>, i: int)
    requires
        0 <= i <= s.len(),
    ensures
        digits_value(s.subrange(0, i)) <= digits_value(s),
    decreases s.len() - i,
{
    if i == s.len() {
        assert(s.subrange(0, s.len() as int) =~= s);
    } else {
        assert(s.subrange(0, i + 1).drop_last() =~= s.subrange(0, i));
        assert(s.subrange(0, i + 1).last() == s[i]);
        lemma_digits_value_mono(s, i + 1);
    }
}

/// What `"<digits>".parse::<usize>()` accepts: an optional leading `+`, then
/// at least one digit, denoting a value that fits the machine word. `None`
/// stands for a parse failure.
pub open spec fn parse_usize_spec(s: Seq<char>) -> Option<nat> {
    let t = if s.len() > 0 && s[0] == '+' {
        s.drop_first()
    } else {
        s
    };
    if t.len() > 0 && all_digits(t) && digits_value(t) <= usize::MAX as nat {
        Some(digits_value(t))
    } else {
        None
    }
}

/// Parses the character span `s@.subrange(lo, hi)` as an unsigned integer,
/// exactly as [`parse_usize_spec`] reads it.
pub fn range_parse_usize(s: &str, lo: usize, hi: usize) -> (r: Option<usize>)
    requires
        lo <= hi <= s@.len(),
    ensures
        match r {
            Some(n) => parse_usize_spec(s@.subrange(lo as int, hi as int)) == Some(n as nat),
            None => parse_usize_spec(s@.subrange(lo as int, hi as int)) is None,
        },
{
    let ghost whole = s@.subrange(lo as int, hi as int);
    let mut start: usize = lo;
    if start < hi && s.get_char(start) == '+' {
        start = start + 1;
    }
    let ghost t = s@.subrange(start as int, hi as int);
    proof {
        if whole.len() > 0 && whole[0] == '+' {
            assert(whole.drop_first() =~= t);
        } else {
            assert(whole =~= t);
        }
    }
    if start == hi {
        return None;
    }
    let mut acc: usize = 0;
    let mut k: usize = start;
    while k < hi
        invariant
            lo <= start <= k <= hi <= s@.len(),
            whole == s@.subrange(lo as int, hi as int),
            t == s@.subrange(start as int, hi as int),
            t == (if whole.len() > 0 && whole[0] == '+' {
                whole.drop_first()
            } else {
                whole
            }),
            forall|j: int| start <= j < k ==> is_digit(s@[j]),
            acc as nat == digits_value(s@.subrange(start as int, k as int)),
        decreases hi - k,
    {
        let c = s.get_char(k);
        let cc = c as u32;
        if cc < 48 || cc > 57 {
            assert(!is_digit(t[k - start]));
            return None;
        }
        let d = (cc - 48) as usize;
        let limit = (usize::MAX - d) / 10;
        proof {
            assert(s@.subrange(start as int, k + 1).drop_last() =~= s@.subrange(
                start as int,
                k as int,
            ));
            assert(s@.subrange(start as int, k + 1).last() == s@[k as int]);
        }
        if acc > limit {
            proof {
                let pre = s@.subrange(start as int, k + 1);
                assert(digits_value(pre) == acc as nat * 10 + d as nat);
                vstd::arithmetic::div_mod::lemma_fundamental_div_mod(
                    (usize::MAX - d) as int,
                    10,
                );
                assert(digits_value(pre) > usize::MAX as nat);
                if all_digits(t) {
                    assert(pre =~= t.subrange(0, k + 1 - start));
                    lemma_digits_value_mono(t, k + 1 - start);
                }
            }
            return None;
        }
        proof {
            vstd::arithmetic::div_mod::lemma_fundamental_div_mod((usize::MAX - d) as int, 10);
        }
        acc = acc * 10 + d;
        k = k + 1;
    }
    proof {
        assert(s@.subrange(start as int, k as int) =~= t);
        assert(forall|j: int| 0 <= j < t.len() ==> is_digit(t[j]));
    }
    Some(acc)
}

} // verus!
