//! Small verified text utilities shared by the stores: blank detection for
//! request validation, case-insensitive username comparison, and substring
//! search for message search.

use vstd::prelude::*;
use vstd::string::StrSliceExecFns;

verus! {

/// The whitespace characters recognised when deciding that a piece of content
/// is blank (the ASCII whitespace set).
pub open spec fn is_space(c: char) -> bool {
    c == ' ' || c == '\t' || c == '\n' || c == '\r' || c == '\u{b}' || c == '\u{c}'
}

/// A string is blank when every character is whitespace; blank content is
/// rejected by every operation that stores content.
pub open spec fn blank(s: Seq<char>) -> bool {
    forall|i: int| 0 <= i < s.len() ==> is_space(#[trigger] s[i])
}

/// Decides blankness of a string.
pub fn is_blank(s: &str) -> (r: bool)
    ensures
        r == blank(s@),
{
    let n = s.unicode_len();
    let mut i: usize = 0;
    while i < n
        invariant
            0 <= i <= n,
            n == s@.len(),
            forall|j: int| 0 <= j < i ==> is_space(#[trigger] s@[j]),
        decreases n - i,
    {
        let c = s.get_char(i);
        if !(c == ' ' || c == '\t' || c == '\n' || c == '\r' || c == '\u{b}' || c == '\u{c}') {
            return false;
        }
        i = i + 1;
    }
    true
}

/// Two characters match ignoring ASCII case.
pub open spec fn eq_char_ci(a: char, b: char) -> bool {
    a == b
    || ('A' <= a && a <= 'Z' && b as int == a as int + 32)
    || ('A' <= b && b <= 'Z' && a as int == b as int + 32)
}

/// Two strings match ignoring ASCII case; usernames are compared this way.
pub open spec fn eq_ci(a: Seq<char>, b: Seq<char>) -> bool {
    a.len() == b.len() && forall|i: int| 0 <= i < a.len() ==> eq_char_ci(#[trigger] a[i], b[i])
}

/// Case-insensitive equality is symmetric.
pub proof fn lemma_eq_ci_sym(a: Seq<char>, b: Seq<char>)
    ensures
        eq_ci(a, b) == eq_ci(b, a),
{
    if eq_ci(a, b) {
        assert(forall|i: int| 0 <= i < b.len() ==> eq_char_ci(#[trigger] b[i], a[i]));
    }
    if eq_ci(b, a) {
        assert(forall|i: int| 0 <= i < a.len() ==> eq_char_ci(#[trigger] a[i], b[i]));
    }
}

/// Case-insensitive equality is transitive.
pub proof fn lemma_eq_ci_trans(a: Seq<char>, b: Seq<char>, c: Seq<char>)
    requires
        eq_ci(a, b),
        eq_ci(b, c),
    ensures
        eq_ci(a, c),
{
    assert forall|i: int| 0 <= i < a.len() implies eq_char_ci(#[trigger] a[i], c[i]) by {
        assert(eq_char_ci(a[i], b[i]));
        assert(eq_char_ci(b[i], c[i]));
    }
}

/// Decides case-insensitive equality of two strings.
pub fn eq_ignore_case(a: &str, b: &str) -> (r: bool)
    ensures
        r == eq_ci(a@, b@),
{
    let na = a.unicode_len();
    let nb = b.unicode_len();
    if na != nb {
        return false;
    }
    let mut i: usize = 0;
    while i < na
        invariant
            0 <= i <= na,
            na == a@.len(),
            na == b@.len(),
            forall|j: int| 0 <= j < i ==> eq_char_ci(#[trigger] a@[j], b@[j]),
        decreases na - i,
    {
        let ca = a.get_char(i);
        let cb = b.get_char(i);
        let fa = if 'A' <= ca && ca <= 'Z' {
            (((ca as u8) + 32) as char)
        } else {
            ca
        };
        let fb = if 'A' <= cb && cb <= 'Z' {
            (((cb as u8) + 32) as char)
        } else {
            cb
        };
        if fa != fb {
            return false;
        }
        i = i + 1;
    }
    true
}

/// The needle occurs in the haystack starting at position `k`.
pub open spec fn match_at(hay: Seq<char>, needle: Seq<char>, k: int) -> bool {
    0 <= k && k + needle.len() <= hay.len() && hay.subrange(k, k + needle.len() as int) == needle
}

/// The needle occurs somewhere in the haystack.
pub open spec fn contains_sub(hay: Seq<char>, needle: Seq<char>) -> bool {
    exists|k: int| match_at(hay, needle, k)
}

/// Decides whether the needle occurs in the haystack starting exactly at `k`.
fn matches_at(hay: &str, needle: &str, k: usize, nh: usize, nn: usize) -> (r: bool)
    requires
        nh == hay@.len(),
        nn == needle@.len(),
        k + nn <= nh,
    ensures
        r == match_at(hay@, needle@, k as int),
{
    let mut i: usize = 0;
    while i < nn
        invariant
            nh == hay@.len(),
            nn == needle@.len(),
            k + nn <= nh,
            0 <= i <= nn,
            forall|j: int| 0 <= j < i ==> hay@[k + j] == #[trigger] needle@[j],
        decreases nn - i,
    {
        let ch = hay.get_char(k + i);
        let cn = needle.get_char(i);
        if ch != cn {
            assert(!match_at(hay@, needle@, k as int)) by {
                if match_at(hay@, needle@, k as int) {
                    assert(hay@.subrange(k as int, k + nn as int)[i as int] == needle@[i as int]);
                }
            }
            return false;
        }
        i = i + 1;
    }
    assert(match_at(hay@, needle@, k as int)) by {
        assert(hay@.subrange(k as int, k + nn as int) =~= needle@);
    }
    true
}

/// Decides whether `needle` occurs in `hay` as a contiguous substring.
pub fn has_substring(hay: &str, needle: &str) -> (r: bool)
    ensures
        r == contains_sub(hay@, needle@),
{
    let nh = hay.unicode_len();
    let nn = needle.unicode_len();
    if nn > nh {
        assert(forall|k: int| !match_at(hay@, needle@, k));
        return false;
    }
    if nn == 0 {
        assert(match_at(hay@, needle@, 0)) by {
            assert(hay@.subrange(0, 0) =~= needle@);
        }
        return true;
    }
    let last = nh - nn;
    let mut k: usize = 0;
    while k <= last
        invariant
            nh == hay@.len(),
            nn == needle@.len(),
            1 <= nn <= nh,
            last == nh - nn,
            0 <= k <= last + 1,
            forall|k0: int| 0 <= k0 < k ==> !match_at(hay@, needle@, k0),
        decreases last + 1 - k,
    {
        if matches_at(hay, needle, k, nh, nn) {
            return true;
        }
        k = k + 1;
    }
    assert(!contains_sub(hay@, needle@)) by {
        if contains_sub(hay@, needle@) {
            let k0 = choose|k0: int| match_at(hay@, needle@, k0);
            assert(0 <= k0 <= last);
            assert(!match_at(hay@, needle@, k0));
        }
    }
    false
}

} // verus!
