//! Removal of ANSI/VT escape sequences and carriage returns from terminal output, so that
//! it can be searched as plain text.

use vstd::prelude::*;
use crate::text::{chars_of, string_from_chars};

verus! {

/// The escape character that opens every sequence.
pub open spec fn esc() -> char {
    '\x1b'
}

/// A carriage return, dropped from the output.
pub open spec fn cr() -> char {
    '\r'
}

/// The bell character that ends an operating-system command.
pub open spec fn bel() -> char {
    '\x07'
}

/// Text without carriage returns or escape characters.
pub open spec fn is_plain(s: Seq<char>) -> bool {
    forall|i: int| 0 <= i < s.len() ==> s[i] != cr() && s[i] != esc()
}

/// A character in `@`..=`~`, which ends a control sequence.
pub open spec fn is_csi_final(c: char) -> bool {
    0x40 <= (c as u32) <= 0x7e
}

/// How many characters the body of a control sequence (after `ESC [`) takes at the start of
/// `t`: up to and including the first final character, or all of `t`.
pub open spec fn csi_len(t: Seq<char>) -> nat
    decreases t.len(),
{
    if t.len() == 0 {
        0
    } else if is_csi_final(t[0]) {
        1
    } else {
        1 + csi_len(t.drop_first())
    }
}

/// How many characters the body of an operating-system command (after `ESC ]`) takes at the
/// start of `t`: up to and including a bell, or an escape and the character after it, or all
/// of `t`.
pub open spec fn osc_len(t: Seq<char>) -> nat
    decreases t.len(),
{
    if t.len() == 0 {
        0
    } else if t[0] == bel() {
        1
    } else if t[0] == esc() {
        if t.len() >= 2 {
            2
        } else {
            1
        }
    } else {
        1 + osc_len(t.drop_first())
    }
}

/// The length of the escape sequence at the start of `s` (which starts with an escape):
/// `ESC [` and a control sequence, `ESC ]` and a command, or `ESC` and one more character.
pub open spec fn escape_len(s: Seq<char>) -> nat {
    if s.len() < 2 {
        s.len()
    } else if s[1] == '[' {
        2 + csi_len(s.skip(2))
    } else if s[1] == ']' {
        2 + osc_len(s.skip(2))
    } else {
        2
    }
}

pub proof fn lemma_csi_len_bound(t: Seq<char>)
    ensures
        csi_len(t) <= t.len(),
    decreases t.len(),
{
    if t.len() > 0 && !is_csi_final(t[0]) {
        lemma_csi_len_bound(t.drop_first());
    }
}

pub proof fn lemma_osc_len_bound(t: Seq<char>)
    ensures
        osc_len(t) <= t.len(),
    decreases t.len(),
{
    if t.len() > 0 && t[0] != bel() && t[0] != esc() {
        lemma_osc_len_bound(t.drop_first());
    }
}

pub proof fn lemma_escape_len_bound(s: Seq<char>)
    requires
        s.len() > 0,
    ensures
        1 <= escape_len(s) <= s.len(),
{
    if s.len() >= 2 {
        lemma_csi_len_bound(s.skip(2));
        lemma_osc_len_bound(s.skip(2));
    }
}

/// The text of `s` with every carriage return and every escape sequence removed.
pub open spec fn strip(s: Seq<char>) -> Seq<char>
    decreases s.len(),
{
    if s.len() == 0 {
        Seq::empty()
    } else if s[0] == cr() {
        strip(s.drop_first())
    } else if s[0] != esc() {
        seq![s[0]] + strip(s.drop_first())
    } else {
        proof {
            lemma_escape_len_bound(s);
        }
        strip(s.skip(escape_len(s) as int))
    }
}

/// Stripped text holds no carriage return and no escape character, and is no longer than
/// the input.
pub proof fn lemma_strip_is_plain(s: Seq<char>)
    ensures
        is_plain(strip(s)),
        strip(s).len() <= s.len(),
    decreases s.len(),
{
    if s.len() > 0 {
        if s[0] == cr() || s[0] != esc() {
            lemma_strip_is_plain(s.drop_first());
        } else {
            lemma_escape_len_bound(s);
            lemma_strip_is_plain(s.skip(escape_len(s) as int));
        }
    }
}

/// Plain text passes through unchanged.
pub proof fn lemma_strip_plain_identity(s: Seq<char>)
    requires
        is_plain(s),
    ensures
        strip(s) == s,
    decreases s.len(),
{
    if s.len() > 0 {
        lemma_strip_plain_identity(s.drop_first());
        assert(seq![s[0]] + s.drop_first() =~= s);
    }
}

/// Stripping twice is stripping once.
pub proof fn lemma_strip_idempotent(s: Seq<char>)
    ensures
        strip(strip(s)) == strip(s),
{
    lemma_strip_is_plain(s);
    lemma_strip_plain_identity(strip(s));
}

/// Text without escape characters can be stripped piecewise: a chunk boundary after it
/// does not change the result.
pub proof fn lemma_strip_concat(a: Seq<char>, b: Seq<char>)
    requires
        forall|i: int| 0 <= i < a.len() ==> a[i] != esc(),
    ensures
        strip(a + b) == strip(a) + strip(b),
    decreases a.len(),
{
    if a.len() == 0 {
        assert(a + b =~= b);
    } else {
        assert((a + b).drop_first() =~= a.drop_first() + b);
        lemma_strip_concat(a.drop_first(), b);
        if a[0] != cr() {
            assert(seq![a[0]] + (strip(a.drop_first()) + strip(b)) =~= (seq![a[0]] + strip(
                a.drop_first(),
            )) + strip(b));
        }
    }
}

/// Whether `c` ends a control sequence.
fn char_is_csi_final(c: char) -> (b: bool)
    ensures
        b == is_csi_final(c),
{
    let u = c as u32;
    0x40 <= u && u <= 0x7e
}

/// The index just past the control-sequence body that starts at `from`.
fn csi_end(s: &Vec<char>, from: usize) -> (j: usize)
    requires
        from <= s.len(),
    ensures
        j == from + csi_len(s@.skip(from as int)),
{
    let n = s.len();
    let mut j = from;
    while j < n
        invariant
            from <= j <= n == s.len(),
            csi_len(s@.skip(from as int)) == (j - from) + csi_len(s@.skip(j as int)),
        decreases n - j,
    {
        assert(s@.skip(j as int).drop_first() =~= s@.skip(j + 1));
        if char_is_csi_final(s[j]) {
            return j + 1;
        }
        j += 1;
    }
    j
}

/// The index just past the operating-system-command body that starts at `from`.
fn osc_end(s: &Vec<char>, from: usize) -> (j: usize)
    requires
        from <= s.len(),
    ensures
        j == from + osc_len(s@.skip(from as int)),
{
    let n = s.len();
    let mut j = from;
    while j < n
        invariant
            from <= j <= n == s.len(),
            osc_len(s@.skip(from as int)) == (j - from) + osc_len(s@.skip(j as int)),
        decreases n - j,
    {
        assert(s@.skip(j as int).drop_first() =~= s@.skip(j + 1));
        let c = s[j];
        if c == '\x07' {
            return j + 1;
        }
        if c == '\x1b' {
            if j + 1 < n {
                return j + 2;
            } else {
                return j + 1;
            }
        }
        j += 1;
    }
    j
}

/// The characters of `s` with carriage returns and escape sequences removed.
pub fn strip_chars(s: &Vec<char>) -> (out: Vec<char>)
    ensures
        out@ == strip(s@),
{
    let n = s.len();
    let mut out: Vec<char> = Vec::new();
    let mut i: usize = 0;
    assert(s@.skip(0) =~= s@);
    while i < n
        invariant
            i <= n == s.len(),
            strip(s@) == out@ + strip(s@.skip(i as int)),
        decreases n - i,
    {
        let ghost t = s@.skip(i as int);
        assert(t[0] == s@[i as int]);
        assert(t.drop_first() =~= s@.skip(i + 1));
        let c = s[i];
        if c == '\r' {
            i += 1;
        } else if c != '\x1b' {
            out.push(c);
            i += 1;
            assert(strip(t) == seq![c] + strip(s@.skip(i as int)));
            assert(out@ + strip(s@.skip(i as int)) =~= (out@.drop_last() + seq![c]) + strip(
                s@.skip(i as int),
            ));
        } else {
            proof {
                lemma_escape_len_bound(t);
            }
            let next = if i + 1 >= n {
                n
            } else if s[i + 1] == '[' {
                assert(t.skip(2) =~= s@.skip(i + 2));
                csi_end(s, i + 2)
            } else if s[i + 1] == ']' {
                assert(t.skip(2) =~= s@.skip(i + 2));
                osc_end(s, i + 2)
            } else {
                i + 2
            };
            assert(next == i + escape_len(t));
            assert(t.skip(escape_len(t) as int) =~= s@.skip(next as int));
            i = next;
        }
    }
    assert(s@.skip(n as int) =~= Seq::<char>::empty());
    assert(out@ + Seq::<char>::empty() =~= out@);
    out
}

/// Strips ANSI/VT escape sequences and carriage returns from `s`, so that terminal output
/// can be matched as plain text. The result holds neither carriage returns nor escape
/// characters.
pub fn strip_ansi(s: &str) -> (r: String)
    ensures
        r@ == strip(s@),
        is_plain(r@),
        r@.len() <= s@.len(),
{
    let v = chars_of(s);
    let out = strip_chars(&v);
    proof {
        lemma_strip_is_plain(s@);
    }
    string_from_chars(&out)
}

} // verus!
