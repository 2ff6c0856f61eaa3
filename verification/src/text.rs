//! Character-level scanning utilities: substring search, whitespace
//! classification, token boundaries. These are the primitives the log-line
//! parsers are built from, and their specifications are the vocabulary the
//! parser contracts speak.

use vstd::prelude::*;

verus! {

/// ASCII whitespace, the separator the log format uses between tokens.
pub open spec fn is_space(c: char) -> bool {
    c == ' ' || c == '\t' || c == '\n' || c == '\r' || c == '\u{b}' || c == '\u{c}'
}

/// ASCII decimal digit.
pub open spec fn is_digit(c: char) -> bool {
    '0' <= c && c <= '9'
}

/// The pattern `p` occurs in `s` starting at position `i`.
pub open spec fn has_sub_at(s: Seq<char>, p: Seq<char>, i: int) -> bool {
    0 <= i && i + p.len() <= s.len() && s.subrange(i, i + p.len() as int) == p
}

/// The pattern `p` occurs somewhere in `s` at or after position `from`.
pub open spec fn has_sub_from(s: Seq<char>, p: Seq<char>, from: int) -> bool {
    exists|i: int| from <= i && has_sub_at(s, p, i)
}

/// The pattern `p` occurs somewhere in `s`.
pub open spec fn contains_seq(s: Seq<char>, p: Seq<char>) -> bool {
    has_sub_from(s, p, 0)
}

/// Position of the first occurrence of `p` in `s` at or after `from`.
pub open spec fn find_sub(s: Seq<char>, p: Seq<char>, from: int) -> Option<int>
    decreases s.len() + 1 - from,
{
    if from < 0 || from + p.len() > s.len() {
        None
    } else if s.subrange(from, from + p.len() as int) == p {
        Some(from)
    } else {
        find_sub(s, p, from + 1)
    }
}

/// `find_sub` returns exactly the first occurrence at or after `from`,
/// and `None` exactly when there is none.
pub proof fn lemma_find_sub_spec(s: Seq<char>, p: Seq<char>, from: int)
    requires
        0 <= from,
    ensures
        match find_sub(s, p, from) {
            Some(i) => from <= i && has_sub_at(s, p, i) && (forall|j: int|
                from <= j < i ==> !has_sub_at(s, p, j)),
            None => forall|j: int| from <= j ==> !has_sub_at(s, p, j),
        },
    decreases s.len() + 1 - from,
{
    if from + p.len() > s.len() {
        assert forall|j: int| from <= j implies !has_sub_at(s, p, j) by {}
    } else if s.subrange(from, from + p.len() as int) == p {
    } else {
        lemma_find_sub_spec(s, p, from + 1);
    }
}

/// Checks whether `p` occurs in `s` starting exactly at position `i`.
fn match_at(s: &str, p: &str, i: usize, s_len: usize, p_len: usize) -> (r: bool)
    requires
        s_len == s@.len(),
        p_len == p@.len(),
        i + p_len <= s_len,
    ensures
        r == has_sub_at(s@, p@, i as int),
{
    let mut j: usize = 0;
    while j < p_len
        invariant
            s_len == s@.len(),
            p_len == p@.len(),
            i + p_len <= s_len,
            0 <= j <= p_len,
            forall|k: int| 0 <= k < j ==> s@[i + k] == p@[k],
        decreases p_len - j,
    {
        if s.get_char(i + j) != p.get_char(j) {
            assert(s@.subrange(i as int, i + p_len as int)[j as int] != p@[j as int]);
            return false;
        }
        j = j + 1;
    }
    assert(s@.subrange(i as int, i + p_len as int) =~= p@);
    true
}

/// Position of the first occurrence of `p` in `s` at or after `from`,
/// if there is one.
pub fn find_from(s: &str, p: &str, from: usize) -> (r: Option<usize>)
    ensures
        match r {
            Some(i) => from <= i && find_sub(s@, p@, from as int) == Some(i as int),
            None => from > s@.len() || find_sub(s@, p@, from as int) is None,
        },
{
    let s_len = s.unicode_len();
    let p_len = p.unicode_len();
    if from > s_len || p_len > s_len - from {
        proof {
            if from <= s@.len() {
                assert(find_sub(s@, p@, from as int) is None);
            }
        }
        return None;
    }
    if p_len == 0 {
        assert(s@.subrange(from as int, from as int) =~= p@);
        return Some(from);
    }
    let bound = s_len - p_len;
    let mut i: usize = from;
    while i <= bound
        invariant
            s_len == s@.len(),
            p_len == p@.len(),
            1 <= p_len <= s_len,
            bound == s_len - p_len,
            from <= i <= bound + 1,
            find_sub(s@, p@, from as int) == find_sub(s@, p@, i as int),
        decreases bound + 1 - i,
    {
        if match_at(s, p, i, s_len, p_len) {
            return Some(i);
        }
        i = i + 1;
    }
    proof {
        assert(find_sub(s@, p@, i as int) is None);
    }
    None
}

/// Whether `s` contains the pattern `p`; mirrors `str::contains`.
pub fn contains_str(s: &str, p: &str) -> (r: bool)
    ensures
        r == contains_seq(s@, p@),
{
    proof {
        lemma_find_sub_spec(s@, p@, 0);
    }
    match find_from(s, p, 0) {
        Some(_) => true,
        None => false,
    }
}

/// Position of the first occurrence of the character `c` in `[i, b)`.
pub open spec fn find_char_before(s: Seq<char>, c: char, i: int, b: int) -> Option<int>
    recommends
        b <= s.len(),
    decreases b - i,
{
    if i < 0 || i >= b || b > s.len() {
        None
    } else if s[i] == c {
        Some(i)
    } else {
        find_char_before(s, c, i + 1, b)
    }
}

/// End of the whitespace-free token that starts at `i`: the position of the
/// first space character at or after `i`, or the end of `s`.
pub open spec fn token_end(s: Seq<char>, i: int) -> int
    decreases s.len() - i,
{
    if i < 0 || i >= s.len() {
        s.len() as int
    } else if is_space(s[i]) {
        i
    } else {
        token_end(s, i + 1)
    }
}

pub proof fn lemma_token_end(s: Seq<char>, i: int)
    requires
        0 <= i <= s.len(),
    ensures
        i <= token_end(s, i) <= s.len(),
        forall|j: int| i <= j < token_end(s, i) ==> !is_space(s[j]),
        token_end(s, i) < s.len() ==> is_space(s[token_end(s, i)]),
        i < s.len() && !is_space(s[i]) ==> token_end(s, i) > i,
    decreases s.len() - i,
{
    if i < s.len() && !is_space(s[i]) {
        lemma_token_end(s, i + 1);
    }
}

/// First position in `[i, b)` holding a non-space character, or `b`.
pub open spec fn first_non_space(s: Seq<char>, i: int, b: int) -> int
    recommends
        b <= s.len(),
    decreases b - i,
{
    if i < 0 || i >= b || i >= s.len() {
        b
    } else if is_space(s[i]) {
        first_non_space(s, i + 1, b)
    } else {
        i
    }
}

pub proof fn lemma_first_non_space(s: Seq<char>, i: int, b: int)
    requires
        0 <= i <= b <= s.len(),
    ensures
        i <= first_non_space(s, i, b) <= b,
        forall|j: int| i <= j < first_non_space(s, i, b) ==> is_space(s[j]),
        first_non_space(s, i, b) < b ==> !is_space(s[first_non_space(s, i, b)]),
    decreases b - i,
{
    if i < b && is_space(s[i]) {
        lemma_first_non_space(s, i + 1, b);
    }
}

/// End of `[a, i)` once trailing space characters are dropped.
pub open spec fn last_non_space_end(s: Seq<char>, a: int, i: int) -> int
    recommends
        i <= s.len(),
    decreases i - a,
{
    if i <= a || i < 0 || i > s.len() {
        a
    } else if is_space(s[i - 1]) {
        last_non_space_end(s, a, i - 1)
    } else {
        i
    }
}

pub proof fn lemma_last_non_space_end(s: Seq<char>, a: int, i: int)
    requires
        0 <= a <= i <= s.len(),
    ensures
        a <= last_non_space_end(s, a, i) <= i,
        forall|j: int| last_non_space_end(s, a, i) <= j < i ==> is_space(s[j]),
        last_non_space_end(s, a, i) > a ==> !is_space(s[last_non_space_end(s, a, i) - 1]),
    decreases i - a,
{
    if i > a && is_space(s[i - 1]) {
        lemma_last_non_space_end(s, a, i - 1);
    }
}

/// The slice `[a, b)` of `s` with leading and trailing space characters
/// removed; mirrors `str::trim` on that slice.
pub open spec fn trim_range(s: Seq<char>, a: int, b: int) -> Seq<char>
    recommends
        0 <= a <= b <= s.len(),
{
    let lo = first_non_space(s, a, b);
    let hi = last_non_space_end(s, a, b);
    if lo < hi {
        s.subrange(lo, hi)
    } else {
        Seq::empty()
    }
}

/// Exec mirror of `token_end`.
pub fn scan_token_end(s: &str, i: usize) -> (r: usize)
    requires
        i <= s@.len(),
    ensures
        r == token_end(s@, i as int),
        i <= r <= s@.len(),
{
    proof {
        lemma_token_end(s@, i as int);
    }
    let s_len = s.unicode_len();
    let mut k: usize = i;
    while k < s_len
        invariant
            s_len == s@.len(),
            i <= k <= s_len,
            token_end(s@, i as int) == token_end(s@, k as int),
        decreases s_len - k,
    {
        if space_char(s.get_char(k)) {
            return k;
        }
        k = k + 1;
    }
    k
}

/// Exec mirror of `first_non_space`.
pub fn scan_first_non_space(s: &str, i: usize, b: usize) -> (r: usize)
    requires
        i <= b <= s@.len(),
    ensures
        r == first_non_space(s@, i as int, b as int),
        i <= r <= b,
{
    proof {
        lemma_first_non_space(s@, i as int, b as int);
    }
    let mut k: usize = i;
    while k < b
        invariant
            i <= k <= b <= s@.len(),
            first_non_space(s@, i as int, b as int) == first_non_space(s@, k as int, b as int),
        decreases b - k,
    {
        if !space_char(s.get_char(k)) {
            return k;
        }
        k = k + 1;
    }
    k
}

/// Exec mirror of `last_non_space_end`.
pub fn scan_last_non_space_end(s: &str, a: usize, i: usize) -> (r: usize)
    requires
        a <= i,
        i <= s@.len(),
    ensures
        r == last_non_space_end(s@, a as int, i as int),
        a <= r <= i,
{
    proof {
        lemma_last_non_space_end(s@, a as int, i as int);
    }
    let mut k: usize = i;
    while k > a
        invariant
            a <= k <= i <= s@.len(),
            last_non_space_end(s@, a as int, i as int) == last_non_space_end(
                s@,
                a as int,
                k as int,
            ),
        decreases k,
    {
        if !space_char(s.get_char(k - 1)) {
            return k;
        }
        k = k - 1;
    }
    k
}

/// The slice `[a, b)` of `s` with surrounding space characters removed,
/// as an owned string.
pub fn trim_to_string(s: &str, a: usize, b: usize) -> (r: String)
    requires
        a <= b <= s@.len(),
    ensures
        r@ == trim_range(s@, a as int, b as int),
{
    let lo = scan_first_non_space(s, a, b);
    let hi = scan_last_non_space_end(s, a, b);
    if lo < hi {
        s.substring_char(lo, hi).to_owned()
    } else {
        proof {
            reveal_strlit("");
        }
        assert(""@ =~= Seq::<char>::empty());
        "".to_owned()
    }
}

/// Whether two string slices hold the same characters; mirrors `==` on
/// `str`.
pub fn str_eq(a: &str, b: &str) -> (r: bool)
    ensures
        r == (a@ == b@),
{
    let la = a.unicode_len();
    let lb = b.unicode_len();
    if la != lb {
        return false;
    }
    let mut i: usize = 0;
    while i < la
        invariant
            la == a@.len(),
            la == b@.len(),
            i <= la,
            forall|j: int| 0 <= j < i ==> a@[j] == b@[j],
        decreases la - i,
    {
        if a.get_char(i) != b.get_char(i) {
            return false;
        }
        i = i + 1;
    }
    proof {
        assert(a@ =~= b@);
    }
    true
}

/// Exec mirror of `is_space`.
pub fn space_char(c: char) -> (r: bool)
    ensures
        r == is_space(c),
{
    c == ' ' || c == '\t' || c == '\n' || c == '\r' || c == '\u{b}' || c == '\u{c}'
}

/// Exec mirror of `is_digit`.
pub fn digit_char(c: char) -> (r: bool)
    ensures
        r == is_digit(c),
{
    '0' <= c && c <= '9'
}

} // verus!
