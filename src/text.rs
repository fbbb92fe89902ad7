//! Small verified helpers on text.

use vstd::prelude::*;

verus! {

/// Relies on `str`'s `==`: two strings are equal when they hold the same
/// characters.
#[verifier::external_body]
pub(crate) fn str_eq(a: &str, b: &str) -> (r: bool)
    ensures
        r == (a@ == b@),
{
    a == b
}

/// Whether `s` holds the same text as `t`.
pub fn same_text(s: &String, t: &str) -> (r: bool)
    ensures
        r == (s@ == t@),
{
    str_eq(s.as_str(), t)
}

/// The characters of `s`.
pub fn chars_of(s: &str) -> (r: Vec<char>)
    ensures
        r@ == s@,
{
    let n = s.unicode_len();
    let mut r: Vec<char> = Vec::new();
    let mut i: usize = 0;
    while i < n
        invariant
            n == s@.len(),
            i <= n,
            r@ == s@.take(i as int),
        decreases n - i,
    {
        r.push(s.get_char(i));
        assert(s@.take(i + 1) =~= s@.take(i as int).push(s@[i as int]));
        i = i + 1;
    }
    assert(s@.take(n as int) =~= s@);
    r
}

/// Whether `s` ends, at position `end`, with the characters of `seg`.
pub fn segment_ends_at(s: &Vec<char>, end: usize, seg: &Vec<char>) -> (r: bool)
    requires
        end <= s@.len(),
    ensures
        r == (seg@.len() <= end && s@.subrange(end - seg@.len(), end as int) == seg@),
{
    if seg.len() > end {
        return false;
    }
    let start = end - seg.len();
    let mut i: usize = 0;
    while i < seg.len()
        invariant
            start + seg@.len() == end,
            end <= s@.len(),
            i <= seg@.len(),
            forall|j: int| 0 <= j < i ==> s@[start + j] == seg@[j],
        decreases seg@.len() - i,
    {
        if s[start + i] != seg[i] {
            assert(s@.subrange(start as int, end as int)[i as int] != seg@[i as int]);
            return false;
        }
        i = i + 1;
    }
    assert(s@.subrange(start as int, end as int) =~= seg@);
    true
}

/// Number of characters of `s` before the first `c` (all of them when `c`
/// does not occur).
pub open spec fn span_until(s: Seq<char>, c: char) -> nat
    decreases s.len(),
{
    if s.len() == 0 || s[0] == c {
        0
    } else {
        1 + span_until(s.drop_first(), c)
    }
}

proof fn lemma_span_until(s: Seq<char>, c: char, i: int)
    requires
        0 <= i <= s.len(),
        forall|j: int| 0 <= j < i ==> s[j] != c,
        i == s.len() || s[i] == c,
    ensures
        span_until(s, c) == i,
    decreases i,
{
    if i > 0 {
        let t = s.drop_first();
        assert forall|j: int| 0 <= j < i - 1 implies t[j] != c by {
            assert(t[j] == s[j + 1]);
        }
        if i < s.len() {
            assert(t[i - 1] == s[i]);
        }
        lemma_span_until(t, c, i - 1);
    }
}

/// The characters before the first `c` are not `c`, and `c` follows them
/// unless they are all of `s`.
pub proof fn lemma_span_until_shape(s: Seq<char>, c: char)
    ensures
        span_until(s, c) <= s.len(),
        forall|j: int| 0 <= j < span_until(s, c) ==> s[j] != c,
        span_until(s, c) < s.len() ==> s[span_until(s, c) as int] == c,
    decreases s.len(),
{
    if s.len() > 0 && s[0] != c {
        let t = s.drop_first();
        lemma_span_until_shape(t, c);
        assert forall|j: int| 0 <= j < span_until(s, c) implies s[j] != c by {
            if j > 0 {
                assert(s[j] == t[j - 1]);
            }
        }
        if span_until(s, c) < s.len() {
            assert(s[span_until(s, c) as int] == t[span_until(t, c) as int]);
        }
    }
}

/// Number of characters of `s` before the first `c`.
pub fn span_until_char(s: &str, c: char) -> (n: usize)
    ensures
        n == span_until(s@, c),
        n <= s@.len(),
{
    let len = s.unicode_len();
    let mut i: usize = 0;
    while i < len && s.get_char(i) != c
        invariant
            len == s@.len(),
            i <= len,
            forall|j: int| 0 <= j < i ==> s@[j] != c,
        decreases len - i,
    {
        i = i + 1;
    }
    proof {
        lemma_span_until(s@, c, i as int);
    }
    i
}

/// One step of the text hash: `h * 31 + c`, wrapping.
pub open spec fn hash_step(h: u64, c: u64) -> u64 {
    vstd::wrapping::u64_specs::wrapping_add(vstd::wrapping::u64_specs::wrapping_mul(h, 31), c)
}

/// The text hash of `s`, from state `h`.
pub open spec fn hash_fold(h: u64, s: Seq<char>) -> u64
    decreases s.len(),
{
    if s.len() == 0 {
        h
    } else {
        hash_fold(hash_step(h, (s[0] as u32) as u64), s.drop_first())
    }
}

/// Continues the text hash `h` over the characters of `s`.
pub fn hash_text(h: u64, s: &str) -> (r: u64)
    ensures
        r == hash_fold(h, s@),
{
    let n = s.unicode_len();
    let mut acc = h;
    let mut i: usize = 0;
    assert(s@.skip(0) =~= s@);
    while i < n
        invariant
            n == s@.len(),
            i <= n,
            hash_fold(h, s@) == hash_fold(acc, s@.skip(i as int)),
        decreases n - i,
    {
        let c = s.get_char(i);
        assert(s@.skip(i as int).drop_first() =~= s@.skip(i + 1));
        acc = acc.wrapping_mul(31).wrapping_add((c as u32) as u64);
        i = i + 1;
    }
    acc
}

} // verus!
