//! Version numbers in command output: finding a `major.minor.patch` pattern in a line,
//! parsing its numeric core and comparing versions.

use vstd::prelude::*;
use crate::text::{chars_of, string_from_range};
use crate::launch::opt_view;
use crate::server::{decimal, digit_char};

verus! {

/// An ASCII decimal digit.
pub open spec fn is_digit(c: char) -> bool {
    0x30 <= (c as u32) <= 0x39
}

/// An ASCII letter or digit.
pub open spec fn is_alnum(c: char) -> bool {
    is_digit(c) || (0x41 <= (c as u32) <= 0x5a) || (0x61 <= (c as u32) <= 0x7a)
}

/// A character that may follow the `-` of a pre-release suffix or the `+` of a build suffix.
pub open spec fn is_suffix_char(c: char) -> bool {
    is_alnum(c) || c == '.' || c == '-'
}

/// Scanning a run of digits from `j` with `dots` dots seen so far, where a dot counts as part
/// of the run only while fewer than two were seen and a digit follows it: the index where the
/// run ends and the number of dots in it.
pub open spec fn run_end(s: Seq<char>, j: int, dots: nat) -> (int, nat)
    decreases s.len() - j,
{
    if j < 0 || j >= s.len() {
        (j, dots)
    } else if is_digit(s[j]) {
        run_end(s, j + 1, dots)
    } else if s[j] == '.' && dots < 2 && j + 1 < s.len() && is_digit(s[j + 1]) {
        run_end(s, j + 1, dots + 1)
    } else {
        (j, dots)
    }
}

/// The end of the run of suffix characters that starts at `k`.
pub open spec fn suffix_end(s: Seq<char>, k: int) -> int
    decreases s.len() - k,
{
    if 0 <= k < s.len() && is_suffix_char(s[k]) {
        suffix_end(s, k + 1)
    } else {
        k
    }
}

pub proof fn lemma_run_end_bounds(s: Seq<char>, j: int, dots: nat)
    requires
        0 <= j <= s.len(),
    ensures
        j <= run_end(s, j, dots).0 <= s.len(),
        run_end(s, j, dots).1 >= dots,
    decreases s.len() - j,
{
    if j < s.len() {
        if is_digit(s[j]) {
            lemma_run_end_bounds(s, j + 1, dots);
        } else if s[j] == '.' && dots < 2 && j + 1 < s.len() && is_digit(s[j + 1]) {
            lemma_run_end_bounds(s, j + 1, dots + 1);
        }
    }
}

pub proof fn lemma_suffix_end_bounds(s: Seq<char>, k: int)
    requires
        0 <= k <= s.len(),
    ensures
        k <= suffix_end(s, k) <= s.len(),
    decreases s.len() - k,
{
    if k < s.len() && is_suffix_char(s[k]) {
        lemma_suffix_end_bounds(s, k + 1);
    }
}

/// The end of the version that starts its suffixes at `j`: an optional `-` pre-release
/// suffix, then an optional `+` build suffix, each of letters, digits, dots and dashes.
pub open spec fn suffixes_end(s: Seq<char>, j: int) -> int {
    let pre_end = if 0 <= j < s.len() && s[j] == '-' {
        suffix_end(s, j + 1)
    } else {
        j
    };
    if 0 <= pre_end < s.len() && s[pre_end] == '+' {
        suffix_end(s, pre_end + 1)
    } else {
        pre_end
    }
}

pub proof fn lemma_suffixes_end_bounds(s: Seq<char>, j: int)
    requires
        0 <= j <= s.len(),
    ensures
        j <= suffixes_end(s, j) <= s.len(),
{
    if j < s.len() && s[j] == '-' {
        lemma_suffix_end_bounds(s, j + 1);
    }
    let pre_end = if j < s.len() && s[j] == '-' {
        suffix_end(s, j + 1)
    } else {
        j
    };
    if pre_end < s.len() && s[pre_end] == '+' {
        lemma_suffix_end_bounds(s, pre_end + 1);
    }
}

/// The span `[start, end)` of the first semver-like pattern found scanning from `i`: digits,
/// a dot, digits, a dot, digits, an optional `-` pre-release suffix and an optional `+` build
/// suffix. A digit run that does not make such a pattern is skipped whole.
pub open spec fn semver_span_from(s: Seq<char>, i: int) -> Option<(int, int)>
    decreases s.len() - i,
{
    if i < 0 || i >= s.len() {
        None
    } else if !is_digit(s[i]) {
        semver_span_from(s, i + 1)
    } else {
        let (j, dots) = run_end(s, i, 0);
        if dots == 2 {
            Some((i, suffixes_end(s, j)))
        } else {
            proof {
                lemma_run_end_bounds(s, i + 1, 0);
            }
            semver_span_from(s, j)
        }
    }
}

/// The first semver-like pattern in `s`.
pub open spec fn semver_in(s: Seq<char>) -> Option<Seq<char>> {
    match semver_span_from(s, 0) {
        Some((start, end)) => Some(s.subrange(start, end)),
        None => None,
    }
}

pub proof fn lemma_semver_span_bounds(s: Seq<char>, i: int)
    requires
        0 <= i,
    ensures
        semver_span_from(s, i) matches Some((start, end)) ==> i <= start < end <= s.len() && is_digit(
            s[start],
        ),
    decreases s.len() - i,
{
    if i < s.len() {
        if !is_digit(s[i]) {
            lemma_semver_span_bounds(s, i + 1);
        } else {
            lemma_run_end_bounds(s, i + 1, 0);
            let (j, dots) = run_end(s, i, 0);
            if dots == 2 {
                lemma_suffixes_end_bounds(s, j);
            } else {
                lemma_semver_span_bounds(s, j);
            }
        }
    }
}

/// A digit run that ends inside `p`, and not on a dot that only the next character could
/// extend, ends at the same place when more text follows.
proof fn lemma_run_end_extend(p: Seq<char>, q: Seq<char>, j: int, dots: nat)
    requires
        0 <= j,
        run_end(p, j, dots).0 < p.len(),
        run_end(p, j, dots).0 + 1 < p.len() || run_end(p, j, dots).1 >= 2,
    ensures
        run_end(p + q, j, dots) == run_end(p, j, dots),
    decreases p.len() - j,
{
    assert((p + q)[j] == p[j]);
    if is_digit(p[j]) {
        lemma_run_end_extend(p, q, j + 1, dots);
    } else if p[j] == '.' && dots < 2 && j + 1 < p.len() && is_digit(p[j + 1]) {
        assert((p + q)[j + 1] == p[j + 1]);
        lemma_run_end_extend(p, q, j + 1, dots + 1);
    } else if j + 1 < p.len() {
        assert((p + q)[j + 1] == p[j + 1]);
    }
}

/// A run of suffix characters that ends inside `p` ends at the same place when more text
/// follows.
proof fn lemma_suffix_end_extend(p: Seq<char>, q: Seq<char>, k: int)
    requires
        0 <= k,
        suffix_end(p, k) < p.len(),
    ensures
        suffix_end(p + q, k) == suffix_end(p, k),
    decreases p.len() - k,
{
    assert((p + q)[k] == p[k]);
    if is_suffix_char(p[k]) {
        lemma_suffix_end_extend(p, q, k + 1);
    }
}

/// Suffixes that end inside `p` end at the same place when more text follows.
proof fn lemma_suffixes_end_extend(p: Seq<char>, q: Seq<char>, j: int)
    requires
        0 <= j,
        suffixes_end(p, j) < p.len(),
    ensures
        suffixes_end(p + q, j) == suffixes_end(p, j),
{
    let pre_end = if j < p.len() && p[j] == '-' {
        suffix_end(p, j + 1)
    } else {
        j
    };
    assert(j < p.len());
    assert((p + q)[j] == p[j]);
    if p[j] == '-' {
        lemma_suffix_end_bounds(p, j + 1);
    }
    if pre_end < p.len() && p[pre_end] == '+' {
        lemma_suffix_end_bounds(p, pre_end + 1);
    }
    assert(pre_end < p.len());
    if p[j] == '-' {
        lemma_suffix_end_extend(p, q, j + 1);
    }
    assert((p + q)[pre_end] == p[pre_end]);
    if p[pre_end] == '+' {
        lemma_suffix_end_extend(p, q, pre_end + 1);
    }
}

/// A version found from `i` that ends before the end of `p` is found, the same, in `p` followed
/// by any text.
proof fn lemma_span_extend(p: Seq<char>, q: Seq<char>, i: int)
    requires
        0 <= i,
        semver_span_from(p, i) matches Some((st, en)) && en < p.len(),
    ensures
        semver_span_from(p + q, i) == semver_span_from(p, i),
    decreases p.len() - i,
{
    assert((p + q)[i] == p[i]);
    if !is_digit(p[i]) {
        lemma_span_extend(p, q, i + 1);
    } else {
        lemma_run_end_bounds(p, i + 1, 0);
        let (j, dots) = run_end(p, i, 0);
        if dots == 2 {
            lemma_suffixes_end_bounds(p, j);
            lemma_run_end_extend(p, q, i, 0);
            lemma_suffixes_end_extend(p, q, j);
        } else {
            lemma_semver_span_bounds(p, j);
            lemma_run_end_extend(p, q, i, 0);
            lemma_span_extend(p, q, j);
        }
    }
}

/// A run of suffix characters that is not empty ends with a suffix character.
proof fn lemma_suffix_end_last(s: Seq<char>, k: int)
    requires
        0 <= k <= s.len(),
    ensures
        suffix_end(s, k) > k ==> is_suffix_char(s[suffix_end(s, k) - 1]),
    decreases s.len() - k,
{
    if k < s.len() && is_suffix_char(s[k]) {
        lemma_suffix_end_last(s, k + 1);
    }
}

/// A found version ends with a character that can belong to one: a digit, a suffix character
/// or the `+` of an empty build suffix.
proof fn lemma_span_last_char(s: Seq<char>)
    ensures
        semver_span_from(s, 0) matches Some((st, en)) ==> is_suffix_char(s[en - 1]) || s[en - 1]
            == '+',
{
    lemma_span_shape(s, 0);
    lemma_semver_span_bounds(s, 0);
    if let Some((st, en)) = semver_span_from(s, 0) {
        let j = run_end(s, st, 0).0;
        let (p1, p2) = lemma_run_shape(s, st, 0);
        assert(is_digit(s[j - 1]));
        if j < s.len() && s[j] == '-' {
            lemma_suffix_end_bounds(s, j + 1);
            lemma_suffix_end_last(s, j + 1);
        }
        let pre_end = if j < s.len() && s[j] == '-' {
            suffix_end(s, j + 1)
        } else {
            j
        };
        if pre_end < s.len() && s[pre_end] == '+' {
            lemma_suffix_end_bounds(s, pre_end + 1);
            lemma_suffix_end_last(s, pre_end + 1);
        }
    }
}

/// The version found is the first one in the text: whatever text follows, it is still the one
/// found, as long as something that cannot belong to a version (white space, for one) comes
/// between them. So `dsh 0.1.0 (node v22.19.0)` gives `0.1.0`, not `22.19.0`.
pub proof fn lemma_semver_first_found(p: Seq<char>, q: Seq<char>)
    requires
        semver_in(p) is Some,
        p.len() > 0,
        !is_suffix_char(p.last()),
        p.last() != '+',
    ensures
        semver_in(p + q) == semver_in(p),
        semver_span_from(p + q, 0) == semver_span_from(p, 0),
{
    lemma_semver_span_bounds(p, 0);
    lemma_span_last_char(p);
    let (st, en) = semver_span_from(p, 0)->0;
    assert(en < p.len());
    lemma_span_extend(p, q, 0);
    assert((p + q).subrange(st, en) =~= p.subrange(st, en));
}

/// Whether `c` is an ASCII digit.
fn char_is_digit(c: char) -> (b: bool)
    ensures
        b == is_digit(c),
{
    let u = c as u32;
    0x30 <= u && u <= 0x39
}

/// Whether `c` may stand in a pre-release suffix.
fn char_is_suffix(c: char) -> (b: bool)
    ensures
        b == is_suffix_char(c),
{
    let u = c as u32;
    (0x30 <= u && u <= 0x39) || (0x41 <= u && u <= 0x5a) || (0x61 <= u && u <= 0x7a) || c == '.'
        || c == '-'
}

/// The end of the run of suffix characters that starts at `from`.
fn suffix_run_end(s: &Vec<char>, from: usize) -> (k: usize)
    requires
        from <= s.len(),
    ensures
        k == suffix_end(s@, from as int),
{
    let n = s.len();
    let mut k = from;
    while k < n && char_is_suffix(s[k])
        invariant
            from <= k <= n == s.len(),
            suffix_end(s@, from as int) == suffix_end(s@, k as int),
        decreases n - k,
    {
        k += 1;
    }
    k
}

/// The span of the first semver-like pattern in `s`.
fn semver_span(s: &Vec<char>) -> (r: Option<(usize, usize)>)
    ensures
        r matches Some((a, b)) ==> semver_span_from(s@, 0) == Some((a as int, b as int)),
        r is None ==> semver_span_from(s@, 0) is None,
{
    let n = s.len();
    let mut i: usize = 0;
    while i < n
        invariant
            i <= n == s.len(),
            semver_span_from(s@, 0) == semver_span_from(s@, i as int),
        decreases n - i,
    {
        if !char_is_digit(s[i]) {
            i += 1;
            continue;
        }
        let start = i;
        let mut j = i;
        let mut dots: usize = 0;
        while j < n
            invariant
                start <= j <= n == s.len(),
                dots <= 2,
                is_digit(s@[start as int]),
                j == start ==> dots == 0,
                run_end(s@, start as int, 0) == run_end(s@, j as int, dots as nat),
            ensures
                start <= j <= n,
                dots <= 2,
                j == start ==> dots == 0,
                run_end(s@, start as int, 0) == (j as int, dots as nat),
            decreases n - j,
        {
            if char_is_digit(s[j]) {
                j += 1;
            } else if s[j] == '.' && dots < 2 && j + 1 < n && char_is_digit(s[j + 1]) {
                dots += 1;
                j += 1;
            } else {
                break;
            }
        }
        if dots == 2 {
            let mut end = j;
            if end < n && s[end] == '-' {
                end = suffix_run_end(s, end + 1);
            }
            if end < n && s[end] == '+' {
                end = suffix_run_end(s, end + 1);
            }
            proof {
                lemma_semver_span_bounds(s@, i as int);
            }
            return Some((start, end));
        }
        proof {
            lemma_run_end_bounds(s@, start + 1, 0);
        }
        i = j;
    }
    None
}

/// Finds a semver-like pattern (digits.digits.digits with an optional `-prerelease` and an
/// optional `+build` suffix) anywhere inside a line: the first one, scanning from the left, where a run of
/// digits and dots that is not such a pattern is skipped whole.
pub fn find_semver(s: &str) -> (r: Option<String>)
    ensures
        opt_view(r) == semver_in(s@),
{
    let v = chars_of(s);
    match semver_span(&v) {
        Some((start, end)) => {
            proof {
                lemma_semver_span_bounds(v@, 0);
            }
            Some(string_from_range(&v, start, end))
        },
        None => None,
    }
}

/// The last version found in `lines`, scanning from the last line backwards.
pub open spec fn last_version_in(lines: Seq<Seq<char>>) -> Option<Seq<char>>
    decreases lines.len(),
{
    if lines.len() == 0 {
        None
    } else {
        match semver_in(lines.last()) {
            Some(v) => Some(v),
            None => last_version_in(lines.drop_last()),
        }
    }
}

/// The characters of each line.
pub open spec fn lines_view(lines: Seq<String>) -> Seq<Seq<char>> {
    lines.map_values(|l: String| l@)
}

/// Scans from the last line backwards for the first semver pattern, so that it works with
/// bare `0.1.0`, `v0.1.0`, `dsh 0.1.0-rc.6`, npm download lines (`…dsh-0.1.0.tgz`) and the
/// like.
pub fn extract_version(lines: &[String]) -> (r: Option<String>)
    ensures
        opt_view(r) == last_version_in(lines_view(lines@)),
{
    let mut i = lines.len();
    assert(lines@.take(i as int) =~= lines@);
    while i > 0
        invariant
            i <= lines@.len(),
            last_version_in(lines_view(lines@)) == last_version_in(lines_view(lines@.take(i as int))),
        decreases i,
    {
        let ghost before = lines_view(lines@.take(i as int));
        assert(before.last() == lines@[i - 1]@);
        assert(before.drop_last() =~= lines_view(lines@.take(i - 1)));
        if let Some(v) = find_semver(lines[i - 1].as_str()) {
            return Some(v);
        }
        i -= 1;
    }
    assert(lines_view(lines@.take(0)) =~= Seq::<Seq<char>>::empty());
    None
}

/// The numeric value of a string of decimal digits.
pub open spec fn decimal_value(s: Seq<char>) -> int
    decreases s.len(),
{
    if s.len() == 0 {
        0
    } else {
        decimal_value(s.drop_last()) * 10 + ((s.last() as u32) - 0x30)
    }
}

/// Every character of `s` is a decimal digit.
pub open spec fn all_digits(s: Seq<char>) -> bool {
    forall|i: int| 0 <= i < s.len() ==> is_digit(s[i])
}

/// What `str::parse::<u64>` gives on a string without sign characters: the value of a
/// non-empty run of digits that fits in 64 bits.
pub open spec fn parse_u64(s: Seq<char>) -> Option<u64> {
    if s.len() > 0 && all_digits(s) && decimal_value(s) <= u64::MAX {
        Some(decimal_value(s) as u64)
    } else {
        None
    }
}

/// A separator: a dot between components when `dot`, otherwise a `-` or `+` that opens a
/// suffix.
pub open spec fn is_separator(c: char, dot: bool) -> bool {
    if dot {
        is_dot(c)
    } else {
        is_suffix_start(c)
    }
}

/// The length of the part of `s` before the first separator of the given kind.
pub open spec fn len_until(s: Seq<char>, dot: bool) -> nat
    decreases s.len(),
{
    if s.len() == 0 || is_separator(s[0], dot) {
        0
    } else {
        1 + len_until(s.drop_first(), dot)
    }
}

/// A `-` or `+` that opens a pre-release or build suffix.
pub open spec fn is_suffix_start(c: char) -> bool {
    c == '-' || c == '+'
}

/// A dot between version components.
pub open spec fn is_dot(c: char) -> bool {
    c == '.'
}

/// The core of a version string: what precedes the first `-` or `+`.
pub open spec fn version_core(s: Seq<char>) -> Seq<char> {
    s.take(len_until(s, false) as int)
}

/// The first dot-separated piece of `s`.
pub open spec fn first_piece(s: Seq<char>) -> Seq<char> {
    s.take(len_until(s, true) as int)
}

/// What follows the first dot of `s`, when there is one.
pub open spec fn after_dot(s: Seq<char>) -> Option<Seq<char>> {
    let k = len_until(s, true);
    if k < s.len() {
        Some(s.skip(k + 1 as int))
    } else {
        None
    }
}

/// The `(major, minor, patch)` core of a version string, ignoring any `-prerelease` or
/// `+build` suffix: the first three dot-separated pieces of the core, each a number that
/// fits in 64 bits; a missing patch counts as 0, a missing minor makes the string
/// unparseable, and pieces after the third are ignored.
pub open spec fn parse_semver_spec(s: Seq<char>) -> Option<(u64, u64, u64)> {
    let core = version_core(s);
    match (parse_u64(first_piece(core)), after_dot(core)) {
        (Some(major), Some(rest)) => match parse_u64(first_piece(rest)) {
            Some(minor) => {
                let patch = match after_dot(rest) {
                    Some(rest2) => parse_u64(first_piece(rest2)),
                    None => Some(0u64),
                };
                match patch {
                    Some(p) => Some((major, minor, p)),
                    None => None,
                }
            },
            None => None,
        },
        _ => None,
    }
}

proof fn lemma_decimal_prefix_le(s: Seq<char>, i: int)
    requires
        0 <= i <= s.len(),
        all_digits(s),
    ensures
        decimal_value(s.take(i)) <= decimal_value(s),
        0 <= decimal_value(s.take(i)),
    decreases s.len(),
{
    if i == s.len() {
        assert(s.take(i) =~= s);
        lemma_decimal_nonneg(s);
    } else {
        assert(s.drop_last().take(i) =~= s.take(i));
        lemma_decimal_prefix_le(s.drop_last(), i);
        lemma_decimal_nonneg(s.drop_last());
        assert(is_digit(s[s.len() - 1]));
    }
}

proof fn lemma_decimal_nonneg(s: Seq<char>)
    requires
        all_digits(s),
    ensures
        0 <= decimal_value(s),
    decreases s.len(),
{
    if s.len() > 0 {
        lemma_decimal_nonneg(s.drop_last());
        assert(is_digit(s[s.len() - 1]));
    }
}

/// The number written by `v[lo..hi]`, when it is a non-empty run of digits that fits in 64
/// bits.
fn parse_decimal(v: &Vec<char>, lo: usize, hi: usize) -> (r: Option<u64>)
    requires
        lo <= hi <= v.len(),
    ensures
        r == parse_u64(v@.subrange(lo as int, hi as int)),
{
    let ghost p = v@.subrange(lo as int, hi as int);
    if lo == hi {
        return None;
    }
    let mut val: u64 = 0;
    let mut i = lo;
    while i < hi
        invariant
            lo <= i <= hi <= v.len(),
            p == v@.subrange(lo as int, hi as int),
            all_digits(p.take(i - lo)),
            val == decimal_value(p.take(i - lo)),
        decreases hi - i,
    {
        let c = v[i];
        assert(p[i - lo] == c);
        if !char_is_digit(c) {
            return None;
        }
        let d = (c as u32 - 0x30) as u64;
        assert(p.take(i - lo + 1).drop_last() =~= p.take(i - lo));
        if val > (u64::MAX - d) / 10 {
            proof {
                assert(val * 10 + d > u64::MAX) by (nonlinear_arith)
                    requires
                        val > (u64::MAX - d) / 10,
                        d <= 9,
                ;
                if all_digits(p) {
                    lemma_decimal_prefix_le(p, i - lo + 1);
                }
            }
            return None;
        }
        assert(val * 10 + d <= u64::MAX) by (nonlinear_arith)
            requires
                val <= (u64::MAX - d) / 10,
                d <= 9,
        ;
        val = val * 10 + d;
        i += 1;
    }
    assert(p.take(hi - lo) =~= p);
    Some(val)
}

/// The length of the part of `v[lo..hi]` before the first separator of the given kind.
fn scan_until(v: &Vec<char>, lo: usize, hi: usize, dot: bool) -> (k: usize)
    requires
        lo <= hi <= v.len(),
    ensures
        lo <= k <= hi,
        k - lo == len_until(v@.subrange(lo as int, hi as int), dot),
{
    let mut k = lo;
    while k < hi
        invariant
            lo <= k <= hi <= v.len(),
            len_until(v@.subrange(lo as int, hi as int), dot) == (k - lo) + len_until(
                v@.subrange(k as int, hi as int),
                dot,
            ),
        decreases hi - k,
    {
        let c = v[k];
        assert(v@.subrange(k as int, hi as int)[0] == c);
        assert(v@.subrange(k as int, hi as int).drop_first() =~= v@.subrange(k + 1, hi as int));
        let stops = if dot {
            c == '.'
        } else {
            c == '-' || c == '+'
        };
        if stops {
            return k;
        }
        k += 1;
    }
    k
}

/// Parses a semver core (major.minor.patch) from a version string, ignoring any
/// `-prerelease` / `+build` suffix. Returns `None` when not parseable.
pub fn parse_semver(s: &str) -> (r: Option<(u64, u64, u64)>)
    ensures
        r == parse_semver_spec(s@),
{
    let v = chars_of(s);
    let n = v.len();
    let core_end = scan_until(&v, 0, n, false);
    assert(v@.subrange(0, n as int) =~= v@);
    let ghost core = version_core(v@);
    assert(core =~= v@.subrange(0, core_end as int));
    let e0 = scan_until(&v, 0, core_end, true);
    assert(first_piece(core) =~= v@.subrange(0, e0 as int));
    let major = parse_decimal(&v, 0, e0);
    if major.is_none() {
        return None;
    }
    if e0 == core_end {
        return None;
    }
    let ghost rest = core.skip(e0 + 1);
    assert(rest =~= v@.subrange(e0 + 1, core_end as int));
    let e1 = scan_until(&v, e0 + 1, core_end, true);
    assert(first_piece(rest) =~= v@.subrange(e0 + 1, e1 as int));
    let minor = parse_decimal(&v, e0 + 1, e1);
    if minor.is_none() {
        return None;
    }
    let patch = if e1 == core_end {
        Some(0u64)
    } else {
        let ghost rest2 = rest.skip(e1 - e0);
        assert(rest2 =~= v@.subrange(e1 + 1, core_end as int));
        let e2 = scan_until(&v, e1 + 1, core_end, true);
        assert(first_piece(rest2) =~= v@.subrange(e1 + 1, e2 as int));
        parse_decimal(&v, e1 + 1, e2)
    };
    match (major, minor, patch) {
        (Some(a), Some(b), Some(c)) => Some((a, b, c)),
        _ => None,
    }
}

/// `s[a..b]` are all decimal digits.
pub open spec fn digits_between(s: Seq<char>, a: int, b: int) -> bool {
    forall|q: int| a <= q < b ==> is_digit(#[trigger] s[q])
}

/// `v` holds a run of at least `n` consecutive digits.
pub open spec fn has_digit_run(v: Seq<char>, n: nat) -> bool {
    exists|i: int| 0 <= i && i + n <= v.len() && #[trigger] digits_between(v, i, i + n)
}

/// The shape of the run that `run_end` scans from a digit at `k` with `d` dots already seen:
/// digits, with one dot for each dot it adds, each dot between digits. Returns the positions
/// of the first and second dot it adds (meaningful only when it adds them).
proof fn lemma_run_shape(s: Seq<char>, k: int, d: nat) -> (r: (int, int))
    requires
        0 <= k < s.len(),
        d <= 2,
        is_digit(s[k]),
    ensures
        k < run_end(s, k, d).0 <= s.len(),
        d <= run_end(s, k, d).1 <= 2,
        run_end(s, k, d).1 == d ==> digits_between(s, k, run_end(s, k, d).0),
        run_end(s, k, d).1 == d + 1 ==> k < r.0 && r.0 + 1 < run_end(s, k, d).0 && s[r.0] == '.'
            && digits_between(s, k, r.0) && digits_between(s, r.0 + 1, run_end(s, k, d).0),
        run_end(s, k, d).1 == d + 2 ==> k < r.0 && r.0 + 1 < r.1 && r.1 + 1 < run_end(s, k, d).0
            && s[r.0] == '.' && s[r.1] == '.' && digits_between(s, k, r.0) && digits_between(
            s,
            r.0 + 1,
            r.1,
        ) && digits_between(s, r.1 + 1, run_end(s, k, d).0),
    decreases s.len() - k,
{
    let n = s.len();
    assert(run_end(s, k, d) == run_end(s, k + 1, d));
    if k + 1 == n {
        assert(run_end(s, k + 1, d) == (k + 1, d));
        (0, 0)
    } else if is_digit(s[k + 1]) {
        lemma_run_shape(s, k + 1, d)
    } else if s[k + 1] == '.' && d < 2 && k + 2 < n && is_digit(s[k + 2]) {
        let inner = lemma_run_shape(s, k + 2, d + 1);
        assert(run_end(s, k + 1, d) == run_end(s, k + 2, d + 1));
        (k + 1, inner.0)
    } else {
        assert(run_end(s, k + 1, d) == (k + 1, d));
        (0, 0)
    }
}

/// What the span of a found version is made of: a digit run with two dots from its start,
/// then the optional suffixes.
proof fn lemma_span_shape(s: Seq<char>, i: int)
    requires
        0 <= i,
    ensures
        semver_span_from(s, i) matches Some((st, en)) ==> 0 <= st < s.len() && is_digit(s[st])
            && run_end(s, st, 0).1 == 2 && en == suffixes_end(s, run_end(s, st, 0).0),
    decreases s.len() - i,
{
    if i < s.len() {
        if !is_digit(s[i]) {
            lemma_span_shape(s, i + 1);
        } else {
            lemma_run_end_bounds(s, i + 1, 0);
            if run_end(s, i, 0).1 != 2 {
                lemma_span_shape(s, run_end(s, i, 0).0);
            }
        }
    }
}

/// Where `len_until` stops: before position `k`, when nothing earlier is a separator and `k`
/// is the end or a separator.
proof fn lemma_len_until_at(s: Seq<char>, dot: bool, k: int)
    requires
        0 <= k <= s.len(),
        forall|q: int| 0 <= q < k ==> !is_separator(#[trigger] s[q], dot),
        k == s.len() || is_separator(s[k], dot),
    ensures
        len_until(s, dot) == k,
    decreases k,
{
    if k > 0 {
        assert forall|q: int| 0 <= q < k - 1 implies !is_separator(
            #[trigger] s.drop_first()[q],
            dot,
        ) by {
            assert(s.drop_first()[q] == s[q + 1]);
        }
        lemma_len_until_at(s.drop_first(), dot, k - 1);
    }
}

/// Ten to the power `n`.
pub open spec fn pow10(n: nat) -> nat
    decreases n,
{
    if n == 0 {
        1
    } else {
        10 * pow10((n - 1) as nat)
    }
}

proof fn lemma_decimal_below_pow10(p: Seq<char>)
    requires
        all_digits(p),
    ensures
        0 <= decimal_value(p) < pow10(p.len()),
    decreases p.len(),
{
    if p.len() > 0 {
        lemma_decimal_below_pow10(p.drop_last());
        assert(is_digit(p[p.len() - 1]));
    }
}

proof fn lemma_pow10_monotone(a: nat, b: nat)
    requires
        a <= b,
    ensures
        pow10(a) <= pow10(b),
    decreases b,
{
    if a < b {
        lemma_pow10_monotone(a, (b - 1) as nat);
    }
}

/// A digit piece of `v` that does not parse holds at least 20 digits.
proof fn lemma_piece_parses(v: Seq<char>, a: int, b: int)
    requires
        0 <= a < b <= v.len(),
        digits_between(v, a, b),
    ensures
        parse_u64(v.subrange(a, b)) is Some || has_digit_run(v, 20),
{
    let p = v.subrange(a, b);
    assert(all_digits(p));
    if parse_u64(p) is None {
        lemma_decimal_below_pow10(p);
        if p.len() <= 19 {
            lemma_pow10_monotone(p.len(), 19);
            reveal_with_fuel(pow10, 20);
            assert(pow10(19) == 10000000000000000000nat);
        } else {
            assert(digits_between(v, a, a + 20));
        }
    }
}

/// A string that starts with digits, a dot, digits, a dot and digits (ending at `len_core`,
/// where the string ends or a `-` or `+` follows) parses, unless one of the numbers has 20 digits
/// or more.
proof fn lemma_dotted_core_parses(v: Seq<char>, len_core: int, q1: int, q2: int)
    requires
        0 < q1,
        q1 + 1 < q2,
        q2 + 1 < len_core <= v.len(),
        v[q1] == '.',
        v[q2] == '.',
        digits_between(v, 0, q1),
        digits_between(v, q1 + 1, q2),
        digits_between(v, q2 + 1, len_core),
        len_core == v.len() || v[len_core] == '-' || v[len_core] == '+',
    ensures
        parse_semver_spec(v) is Some || has_digit_run(v, 20),
{
    assert forall|q: int| 0 <= q < len_core implies !is_separator(#[trigger] v[q], false) by {
        if q != q1 && q != q2 {
            if q < q1 {
                assert(is_digit(v[q]));
            } else if q < q2 {
                assert(is_digit(v[q]));
            } else {
                assert(is_digit(v[q]));
            }
        }
    }
    lemma_len_until_at(v, false, len_core);
    let core = version_core(v);
    assert(core =~= v.subrange(0, len_core));
    assert forall|q: int| 0 <= q < q1 implies !is_separator(#[trigger] core[q], true) by {
        assert(is_digit(v[q]));
    }
    lemma_len_until_at(core, true, q1);
    assert(first_piece(core) =~= v.subrange(0, q1));
    lemma_piece_parses(v, 0, q1);
    let rest = core.skip(q1 + 1);
    assert(after_dot(core) == Some(rest));
    let k2 = q2 - q1 - 1;
    assert forall|q: int| 0 <= q < k2 implies !is_separator(#[trigger] rest[q], true) by {
        assert(rest[q] == v[q1 + 1 + q]);
        assert(is_digit(v[q1 + 1 + q]));
    }
    assert(rest[k2] == v[q2]);
    lemma_len_until_at(rest, true, k2);
    assert(first_piece(rest) =~= v.subrange(q1 + 1, q2));
    lemma_piece_parses(v, q1 + 1, q2);
    let rest2 = rest.skip(k2 + 1);
    assert(after_dot(rest) == Some(rest2));
    assert forall|q: int| 0 <= q < rest2.len() implies !is_separator(#[trigger] rest2[q], true) by {
        assert(rest2[q] == v[q2 + 1 + q]);
        assert(is_digit(v[q2 + 1 + q]));
    }
    lemma_len_until_at(rest2, true, rest2.len() as int);
    assert(first_piece(rest2) =~= v.subrange(q2 + 1, len_core));
    lemma_piece_parses(v, q2 + 1, len_core);
}

/// A version found in a line parses, unless one of its three numbers has 20 digits or more
/// (and so may not fit in 64 bits): what `extract_version` returns can be compared.
pub proof fn lemma_found_version_parses(s: Seq<char>)
    ensures
        semver_in(s) matches Some(v) ==> parse_semver_spec(v) is Some || has_digit_run(v, 20),
{
    lemma_span_shape(s, 0);
    lemma_semver_span_bounds(s, 0);
    if let Some((st, en)) = semver_span_from(s, 0) {
        let v = s.subrange(st, en);
        let j = run_end(s, st, 0).0;
        let (p1, p2) = lemma_run_shape(s, st, 0);
        lemma_suffixes_end_bounds(s, j);
        assert forall|q: int| 0 <= q < p1 - st implies is_digit(#[trigger] v[q]) by {
            assert(v[q] == s[st + q]);
        }
        assert forall|q: int| p1 - st + 1 <= q < p2 - st implies is_digit(#[trigger] v[q]) by {
            assert(v[q] == s[st + q]);
        }
        assert forall|q: int| p2 - st + 1 <= q < j - st implies is_digit(#[trigger] v[q]) by {
            assert(v[q] == s[st + q]);
        }
        assert(v[p1 - st] == s[p1]);
        assert(v[p2 - st] == s[p2]);
        if j - st < v.len() {
            assert(v[j - st] == s[j]);
        }
        lemma_dotted_core_parses(v, j - st, p1 - st, p2 - st);
    }
}

/// A decimal digit character has the digit's value.
proof fn lemma_digit_char(d: int)
    requires
        0 <= d < 10,
    ensures
        is_digit(digit_char(d)),
        (digit_char(d) as u32) - 0x30 == d,
{
    let t = seq!['0', '1', '2', '3', '4', '5', '6', '7', '8', '9'];
    assert(digit_char(d) == t[d]);
    if d == 0 {
        assert(t[0] == '0');
    } else if d == 1 {
        assert(t[1] == '1');
    } else if d == 2 {
        assert(t[2] == '2');
    } else if d == 3 {
        assert(t[3] == '3');
    } else if d == 4 {
        assert(t[4] == '4');
    } else if d == 5 {
        assert(t[5] == '5');
    } else if d == 6 {
        assert(t[6] == '6');
    } else if d == 7 {
        assert(t[7] == '7');
    } else if d == 8 {
        assert(t[8] == '8');
    } else {
        assert(t[9] == '9');
    }
}

/// The decimal representation of `n` is a non-empty run of digits whose value is `n`.
pub proof fn lemma_decimal_value(n: nat)
    ensures
        decimal(n).len() > 0,
        all_digits(decimal(n)),
        decimal_value(decimal(n)) == n,
    decreases n,
{
    let s = decimal(n);
    if n < 10 {
        lemma_digit_char(n as int);
        assert(s.drop_last() =~= Seq::<char>::empty());
        assert(decimal_value(Seq::<char>::empty()) == 0);
        assert(s.last() == digit_char(n as int));
        assert(decimal_value(s) == decimal_value(s.drop_last()) * 10 + ((s.last() as u32) - 0x30));
    } else {
        lemma_decimal_value(n / 10);
        lemma_digit_char((n % 10) as int);
        assert(s.drop_last() =~= decimal(n / 10));
        assert(s.last() == digit_char((n % 10) as int));
        assert(decimal_value(s) == decimal_value(s.drop_last()) * 10 + ((s.last() as u32) - 0x30));
        assert(n == (n / 10) * 10 + n % 10);
        assert forall|i: int| 0 <= i < s.len() implies is_digit(s[i]) by {
            if i < s.len() - 1 {
                assert(s[i] == decimal(n / 10)[i]);
            }
        }
    }
}

/// `major.minor.patch`, written in decimal.
pub open spec fn version_text(a: u64, b: u64, c: u64) -> Seq<char> {
    decimal(a as nat) + seq!['.'] + decimal(b as nat) + seq!['.'] + decimal(c as nat)
}

/// The first piece of `d.rest`, for digits `d`, is `d`, and `rest` follows the dot.
proof fn lemma_piece_then_dot(d: Seq<char>, rest: Seq<char>)
    requires
        all_digits(d),
    ensures
        first_piece(d + seq!['.'] + rest) == d,
        after_dot(d + seq!['.'] + rest) == Some(rest),
{
    let x = d + seq!['.'] + rest;
    assert forall|q: int| 0 <= q < d.len() implies !is_separator(#[trigger] x[q], true) by {
        assert(x[q] == d[q]);
    }
    assert(x[d.len() as int] == '.');
    lemma_len_until_at(x, true, d.len() as int);
    assert(x.take(d.len() as int) =~= d);
    assert(x.skip(d.len() + 1 as int) =~= rest);
}

/// The first piece of a run of digits is all of it.
proof fn lemma_piece_alone(d: Seq<char>)
    requires
        all_digits(d),
    ensures
        first_piece(d) == d,
{
    assert forall|q: int| 0 <= q < d.len() implies !is_separator(#[trigger] d[q], true) by {}
    lemma_len_until_at(d, true, d.len() as int);
    assert(d.take(d.len() as int) =~= d);
}

/// The core of a version written as `a.b.c` and followed by nothing, or by a `-` or `+` and
/// anything, is `a.b.c`.
proof fn lemma_version_text_core(v: Seq<char>, a: u64, b: u64, c: u64)
    requires
        version_text(a, b, c).len() <= v.len(),
        v.take(version_text(a, b, c).len() as int) == version_text(a, b, c),
        version_text(a, b, c).len() == v.len() || v[version_text(a, b, c).len() as int] == '-'
            || v[version_text(a, b, c).len() as int] == '+',
    ensures
        version_core(v) == version_text(a, b, c),
{
    let t = version_text(a, b, c);
    let da = decimal(a as nat);
    let db = decimal(b as nat);
    let dc = decimal(c as nat);
    lemma_decimal_value(a as nat);
    lemma_decimal_value(b as nat);
    lemma_decimal_value(c as nat);
    let la = da.len() as int;
    let lb = db.len() as int;
    assert forall|q: int| 0 <= q < t.len() implies !is_separator(#[trigger] v[q], false) by {
        assert(v[q] == v.take(t.len() as int)[q]);
        if q < la {
            assert(t[q] == da[q]);
        } else if q == la {
        } else if q < la + 1 + lb {
            assert(t[q] == db[q - la - 1]);
        } else if q == la + 1 + lb {
        } else {
            assert(t[q] == dc[q - la - lb - 2]);
        }
    }
    lemma_len_until_at(v, false, t.len() as int);
}

/// A version written as `a.b.c` and followed by nothing, or by a `-` or `+` and anything,
/// parses back to `(a, b, c)`.
proof fn lemma_version_text_parses(v: Seq<char>, a: u64, b: u64, c: u64)
    requires
        version_text(a, b, c).len() <= v.len(),
        v.take(version_text(a, b, c).len() as int) == version_text(a, b, c),
        version_text(a, b, c).len() == v.len() || v[version_text(a, b, c).len() as int] == '-'
            || v[version_text(a, b, c).len() as int] == '+',
    ensures
        parse_semver_spec(v) == Some((a, b, c)),
{
    let da = decimal(a as nat);
    let db = decimal(b as nat);
    let dc = decimal(c as nat);
    lemma_decimal_value(a as nat);
    lemma_decimal_value(b as nat);
    lemma_decimal_value(c as nat);
    lemma_version_text_core(v, a, b, c);
    let r1 = db + seq!['.'] + dc;
    assert(version_text(a, b, c) =~= da + seq!['.'] + r1);
    lemma_piece_then_dot(da, r1);
    lemma_piece_then_dot(db, dc);
    lemma_piece_alone(dc);
}

/// Parsing undoes writing: `a.b.c`, alone or followed by a `-prerelease` or `+build`
/// suffix, parses to `(a, b, c)`.
pub proof fn lemma_parse_semver_round_trip(a: u64, b: u64, c: u64, suffix: Seq<char>)
    ensures
        parse_semver_spec(version_text(a, b, c)) == Some((a, b, c)),
        parse_semver_spec(version_text(a, b, c) + seq!['-'] + suffix) == Some((a, b, c)),
        parse_semver_spec(version_text(a, b, c) + seq!['+'] + suffix) == Some((a, b, c)),
{
    let t = version_text(a, b, c);
    assert(t.take(t.len() as int) =~= t);
    lemma_version_text_parses(t, a, b, c);
    let v1 = t + seq!['-'] + suffix;
    assert(v1.take(t.len() as int) =~= t);
    assert(v1[t.len() as int] == '-');
    lemma_version_text_parses(v1, a, b, c);
    let v2 = t + seq!['+'] + suffix;
    assert(v2.take(t.len() as int) =~= t);
    assert(v2[t.len() as int] == '+');
    lemma_version_text_parses(v2, a, b, c);
}

/// `v` is at least `min` in the order of (major, minor, patch).
pub open spec fn at_least(v: (u64, u64, u64), min: (u64, u64, u64)) -> bool {
    v.0 > min.0 || (v.0 == min.0 && (v.1 > min.1 || (v.1 == min.1 && v.2 >= min.2)))
}

/// Whether version `v` is at least `min`, comparing major.minor.patch.
pub fn version_at_least(v: (u64, u64, u64), min: (u64, u64, u64)) -> (r: bool)
    ensures
        r == at_least(v, min),
{
    if v.0 != min.0 {
        v.0 > min.0
    } else if v.1 != min.1 {
        v.1 > min.1
    } else {
        v.2 >= min.2
    }
}

/// Every version is at least itself.
pub proof fn lemma_at_least_reflexive(v: (u64, u64, u64))
    ensures
        at_least(v, v),
{
}

/// Being at least another version is transitive.
pub proof fn lemma_at_least_transitive(a: (u64, u64, u64), b: (u64, u64, u64), c: (u64, u64, u64))
    requires
        at_least(a, b),
        at_least(b, c),
    ensures
        at_least(a, c),
{
}

/// Any two versions compare one way or the other, and both ways only when equal.
pub proof fn lemma_at_least_total(a: (u64, u64, u64), b: (u64, u64, u64))
    ensures
        at_least(a, b) || at_least(b, a),
        at_least(a, b) && at_least(b, a) ==> a == b,
{
}

} // verus!
