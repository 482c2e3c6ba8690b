//! Character-level helpers shared by the parsers: conversions between `str`,
//! `String` and character vectors, whitespace, searching and trimming.

use vstd::prelude::*;
use vstd::std_specs::iter::IteratorSpec;

verus! {

/// Appends one character to a string (`String::push`).
#[verifier::external_body]
pub(crate) fn push_char(s: &mut String, c: char)
    ensures
        final(s)@ == old(s)@.push(c),
{
    s.push(c);
}

/// The characters of a string slice, in order.
pub fn chars_of(s: &str) -> (v: Vec<char>)
    ensures
        v@ == s@,
{
    let mut v: Vec<char> = Vec::new();
    for c in it: s.chars()
        invariant
            v@ == it.seq().take(it.index() as int),
    {
        v.push(c);
    }
    v
}

/// A string holding the characters `v[lo..hi]`.
pub fn string_from_range(v: &Vec<char>, lo: usize, hi: usize) -> (r: String)
    requires
        lo <= hi <= v.len(),
    ensures
        r@ == v@.subrange(lo as int, hi as int),
{
    let mut s = String::new();
    let mut i: usize = lo;
    while i < hi
        invariant
            lo <= i <= hi <= v.len(),
            s@ == v@.subrange(lo as int, i as int),
        decreases hi - i,
    {
        push_char(&mut s, v[i]);
        i += 1;
        assert(v@.subrange(lo as int, i as int) == v@.subrange(lo as int, i - 1).push(v@[i - 1]));
    }
    s
}

/// The characters `v[lo..hi]`.
pub fn sub_chars(v: &Vec<char>, lo: usize, hi: usize) -> (r: Vec<char>)
    requires
        lo <= hi <= v.len(),
    ensures
        r@ == v@.subrange(lo as int, hi as int),
{
    let mut r: Vec<char> = Vec::new();
    let mut i: usize = lo;
    while i < hi
        invariant
            lo <= i <= hi <= v.len(),
            r@ == v@.subrange(lo as int, i as int),
        decreases hi - i,
    {
        r.push(v[i]);
        i += 1;
        assert(v@.subrange(lo as int, i as int) == v@.subrange(lo as int, i - 1).push(v@[i - 1]));
    }
    r
}

/// A string holding all the characters of `v`.
pub fn string_from_chars(v: &Vec<char>) -> (r: String)
    ensures
        r@ == v@,
{
    let r = string_from_range(v, 0, v.len());
    assert(v@.subrange(0, v.len() as int) == v@);
    r
}

/// Unicode `White_Space`, the property that `char::is_whitespace` tests.
pub open spec fn is_whitespace(c: char) -> bool {
    let u = c as u32;
    (0x09 <= u <= 0x0d) || u == 0x20 || u == 0x85 || u == 0xa0 || u == 0x1680
        || (0x2000 <= u <= 0x200a) || u == 0x2028 || u == 0x2029 || u == 0x202f
        || u == 0x205f || u == 0x3000
}

/// Whether `c` is a Unicode white-space character.
pub fn char_is_whitespace(c: char) -> (b: bool)
    ensures
        b == is_whitespace(c),
{
    let u = c as u32;
    (0x09 <= u && u <= 0x0d) || u == 0x20 || u == 0x85 || u == 0xa0 || u == 0x1680
        || (0x2000 <= u && u <= 0x200a) || u == 0x2028 || u == 0x2029 || u == 0x202f
        || u == 0x205f || u == 0x3000
}

/// `needle` occurs in `hay` starting at position `k`.
pub open spec fn occurs_at(hay: Seq<char>, needle: Seq<char>, k: int) -> bool {
    0 <= k && k + needle.len() <= hay.len() && hay.subrange(k, k + needle.len() as int) == needle
}

/// The first position at or after `from` where `needle` occurs in `hay`.
pub open spec fn index_of_from(hay: Seq<char>, needle: Seq<char>, from: int) -> Option<int>
    decreases hay.len() + 1 - from,
{
    if from < 0 || from + needle.len() > hay.len() {
        None
    } else if occurs_at(hay, needle, from) {
        Some(from)
    } else {
        index_of_from(hay, needle, from + 1)
    }
}

/// The first position where `needle` occurs in `hay` (what `str::find` returns, counted in
/// characters).
pub open spec fn index_of(hay: Seq<char>, needle: Seq<char>) -> Option<int> {
    index_of_from(hay, needle, 0)
}

/// `needle` occurs somewhere in `hay`.
pub open spec fn contains_seq(hay: Seq<char>, needle: Seq<char>) -> bool {
    index_of(hay, needle) is Some
}

/// What `index_of_from` returns: the least occurrence at or after `from`.
pub proof fn lemma_index_of_from(hay: Seq<char>, needle: Seq<char>, from: int)
    requires
        0 <= from,
    ensures
        index_of_from(hay, needle, from) matches Some(k) ==> from <= k && occurs_at(hay, needle, k)
            && forall|m: int| from <= m < k ==> !occurs_at(hay, needle, m),
        index_of_from(hay, needle, from) is None ==> forall|m: int|
            from <= m ==> !occurs_at(hay, needle, m),
    decreases hay.len() + 1 - from,
{
    if from + needle.len() <= hay.len() && !occurs_at(hay, needle, from) {
        lemma_index_of_from(hay, needle, from + 1);
        assert forall|m: int| from <= m && (m < from + 1 || index_of_from(hay, needle, from + 1) is None)
            implies !occurs_at(hay, needle, m) by {
            if m == from {
            }
        }
    }
}

/// The first occurrence at or after `from` is the least one there.
pub proof fn lemma_first_occurrence(hay: Seq<char>, needle: Seq<char>, from: int, k: int)
    requires
        0 <= from <= k,
        occurs_at(hay, needle, k),
        forall|m: int| from <= m < k ==> !occurs_at(hay, needle, m),
    ensures
        index_of_from(hay, needle, from) == Some(k),
{
    lemma_index_of_from(hay, needle, from);
    match index_of_from(hay, needle, from) {
        Some(j) => {
            if j < k {
                assert(!occurs_at(hay, needle, j));
            } else if j > k {
                assert(!occurs_at(hay, needle, k));
            }
        },
        None => {
            assert(!occurs_at(hay, needle, k));
        },
    }
}

/// Without occurrences at or after `from`, there is none to find.
pub proof fn lemma_no_occurrence(hay: Seq<char>, needle: Seq<char>, from: int)
    requires
        0 <= from,
        forall|m: int| from <= m ==> !occurs_at(hay, needle, m),
    ensures
        index_of_from(hay, needle, from) is None,
{
    lemma_index_of_from(hay, needle, from);
}

/// Occurrences in a suffix are the occurrences in the whole, shifted.
pub proof fn lemma_occurs_skip(hay: Seq<char>, needle: Seq<char>, off: int, j: int)
    requires
        0 <= off <= hay.len(),
        0 <= j,
    ensures
        occurs_at(hay.skip(off), needle, j) == occurs_at(hay, needle, j + off),
{
    if j + off + needle.len() <= hay.len() {
        assert(hay.skip(off).subrange(j, j + needle.len()) =~= hay.subrange(
            j + off,
            j + off + needle.len(),
        ));
    }
}

/// Occurrences that lie within a prefix are the same in any extension of it.
pub proof fn lemma_occurs_prefix(h1: Seq<char>, h2: Seq<char>, needle: Seq<char>, m: int)
    requires
        0 <= m,
        m + needle.len() <= h1.len(),
    ensures
        occurs_at(h1 + h2, needle, m) == occurs_at(h1, needle, m),
{
    assert((h1 + h2).subrange(m, m + needle.len()) =~= h1.subrange(m, m + needle.len()));
}

/// Searching a suffix finds what searching the whole from the suffix's start finds, shifted.
pub proof fn lemma_index_of_skip(hay: Seq<char>, needle: Seq<char>, off: int)
    requires
        0 <= off <= hay.len(),
    ensures
        index_of(hay.skip(off), needle) == (match index_of_from(hay, needle, off) {
            Some(k) => Some(k - off),
            None => None,
        }),
{
    lemma_index_of_from(hay, needle, off);
    match index_of_from(hay, needle, off) {
        Some(k) => {
            lemma_occurs_skip(hay, needle, off, k - off);
            assert forall|m: int| 0 <= m < k - off implies !occurs_at(hay.skip(off), needle, m) by {
                lemma_occurs_skip(hay, needle, off, m);
            }
            lemma_first_occurrence(hay.skip(off), needle, 0, k - off);
        },
        None => {
            assert forall|m: int| 0 <= m implies !occurs_at(hay.skip(off), needle, m) by {
                lemma_occurs_skip(hay, needle, off, m);
            }
            lemma_no_occurrence(hay.skip(off), needle, 0);
        },
    }
}

/// Without occurrences before `off`, searching from the start is searching from `off`.
pub proof fn lemma_index_of_from_skip_none(hay: Seq<char>, needle: Seq<char>, off: int)
    requires
        0 <= off,
        forall|m: int| 0 <= m < off ==> !occurs_at(hay, needle, m),
    ensures
        index_of(hay, needle) == index_of_from(hay, needle, off),
{
    lemma_index_of_from(hay, needle, off);
    lemma_index_of_from(hay, needle, 0);
    match index_of_from(hay, needle, off) {
        Some(k) => {
            lemma_first_occurrence(hay, needle, 0, k);
        },
        None => {
            lemma_no_occurrence(hay, needle, 0);
        },
    }
}

/// The first occurrence in a text stays the first when more text follows.
pub proof fn lemma_index_of_extend(h1: Seq<char>, h2: Seq<char>, needle: Seq<char>)
    requires
        index_of(h1, needle) is Some,
    ensures
        index_of(h1 + h2, needle) == index_of(h1, needle),
{
    lemma_index_of_from(h1, needle, 0);
    let k = index_of(h1, needle)->0;
    lemma_occurs_prefix(h1, h2, needle, k);
    assert forall|m: int| 0 <= m < k implies !occurs_at(h1 + h2, needle, m) by {
        lemma_occurs_prefix(h1, h2, needle, m);
    }
    lemma_first_occurrence(h1 + h2, needle, 0, k);
}

/// Whether `needle` occurs in `hay` at position `k`.
fn matches_at(hay: &Vec<char>, needle: &Vec<char>, k: usize) -> (b: bool)
    requires
        k + needle.len() <= hay.len(),
    ensures
        b == occurs_at(hay@, needle@, k as int),
{
    let mut i: usize = 0;
    while i < needle.len()
        invariant
            i <= needle.len(),
            k + needle.len() <= hay.len(),
            forall|m: int| 0 <= m < i ==> hay@[k + m] == needle@[m],
        decreases needle.len() - i,
    {
        if hay[k + i] != needle[i] {
            assert(hay@.subrange(k as int, k + needle.len())[i as int] != needle@[i as int]);
            return false;
        }
        i += 1;
    }
    assert(hay@.subrange(k as int, k + needle.len()) =~= needle@);
    true
}

/// The first position at or after `from` where `needle` occurs in `hay`.
pub fn find_from(hay: &Vec<char>, needle: &Vec<char>, from: usize) -> (r: Option<usize>)
    ensures
        r matches Some(k) ==> index_of_from(hay@, needle@, from as int) == Some(k as int),
        r is None ==> index_of_from(hay@, needle@, from as int) is None,
{
    let mut k: usize = from;
    if needle.len() > hay.len() {
        return None;
    }
    let last = hay.len() - needle.len();
    while k <= last
        invariant
            from <= k,
            last == hay.len() - needle.len(),
            index_of_from(hay@, needle@, from as int) == index_of_from(hay@, needle@, k as int),
        decreases hay.len() + 1 - k,
    {
        if matches_at(hay, needle, k) {
            return Some(k);
        }
        if k == last {
            return None;
        }
        k += 1;
    }
    None
}

/// `s` starts with `p`.
pub open spec fn starts_with(s: Seq<char>, p: Seq<char>) -> bool {
    p.len() <= s.len() && s.take(p.len() as int) == p
}

/// Whether the characters `s` start with those of `p`.
pub fn chars_start_with(s: &Vec<char>, p: &str) -> (b: bool)
    ensures
        b == starts_with(s@, p@),
{
    let pv = chars_of(p);
    if pv.len() > s.len() {
        return false;
    }
    let mut i: usize = 0;
    while i < pv.len()
        invariant
            i <= pv.len() <= s.len(),
            pv@ == p@,
            forall|j: int| 0 <= j < i ==> s@[j] == pv@[j],
        decreases pv.len() - i,
    {
        if s[i] != pv[i] {
            assert(s@.take(pv.len() as int)[i as int] == s@[i as int]);
            assert(s@.take(pv.len() as int) != pv@);
            return false;
        }
        i += 1;
    }
    assert(s@.take(pv.len() as int) =~= pv@);
    true
}

/// Whether the characters `s` are exactly those of `p`.
pub fn chars_equal(s: &Vec<char>, p: &str) -> (b: bool)
    ensures
        b == (s@ == p@),
{
    let n = crate::text::chars_of(p).len();
    if n != s.len() {
        return false;
    }
    let r = chars_start_with(s, p);
    assert(s@.take(s.len() as int) =~= s@);
    r
}

/// Whether two string slices hold the same characters.
pub fn str_equal(a: &str, b: &str) -> (r: bool)
    ensures
        r == (a@ == b@),
{
    let v = chars_of(a);
    chars_equal(&v, b)
}

/// A name for what `String::from_utf8_lossy` makes of a byte sequence.
pub uninterp spec fn utf8_lossy(bytes: Seq<u8>) -> Seq<char>;

/// Decodes bytes as UTF-8, with U+FFFD in place of each invalid sequence
/// (`String::from_utf8_lossy`). The contract names the result and states only what the
/// documentation gives for valid input: then it is exactly the decoded text.
#[verifier::external_body]
pub(crate) fn decode_utf8_lossy(bytes: &[u8]) -> (s: String)
    ensures
        s@ == utf8_lossy(bytes@),
        vstd::utf8::valid_utf8(bytes@) ==> s@ == vstd::utf8::decode_utf8(bytes@),
{
    String::from_utf8_lossy(bytes).into_owned()
}

} // verus!
