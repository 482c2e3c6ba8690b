//! Extraction of the authenticated `dsh web: <url>` line from the streamed output of the
//! server process, tolerant of chunk boundaries and terminal escape sequences.

use vstd::prelude::*;
use vstd::utf8::encode_utf8;
use crate::ansi::{
    esc, is_plain, lemma_strip_concat, lemma_strip_is_plain, lemma_strip_plain_identity, strip,
    strip_chars,
};
use crate::text::{
    chars_of, char_is_whitespace, contains_seq, decode_utf8_lossy, find_from, index_of,
    is_whitespace, lemma_first_occurrence, lemma_index_of_extend,
    lemma_index_of_from, lemma_index_of_from_skip_none, lemma_index_of_skip, lemma_occurs_prefix,
    occurs_at, string_from_range, sub_chars, utf8_lossy,
};

verus! {

/// The text that announces the server's URL: `dsh web: http`.
pub open spec fn web_marker() -> Seq<char> {
    seq!['d', 's', 'h', ' ', 'w', 'e', 'b', ':', ' ', 'h', 't', 't', 'p']
}

/// How many characters of the marker come before the URL (`dsh web: `).
pub open spec fn marker_prefix_len() -> int {
    9
}

/// The query parameter that carries the launch token: `token=`.
pub open spec fn token_marker() -> Seq<char> {
    seq!['t', 'o', 'k', 'e', 'n', '=']
}

/// How many characters of cleaned output are kept while no marker has been seen.
pub open spec fn kept_chars() -> nat {
    32
}

/// The byte length beyond which a pending launch line is abandoned.
pub open spec fn max_pending_bytes() -> nat {
    8192
}

/// A character that ends the URL: white space or the `(` of a following remark.
pub open spec fn ends_url(c: char) -> bool {
    is_whitespace(c) || c == '('
}

/// The length of the URL at the start of `t`, when a character that ends it follows.
pub open spec fn url_len(t: Seq<char>) -> Option<nat>
    decreases t.len(),
{
    if t.len() == 0 {
        None
    } else if ends_url(t[0]) {
        Some(0)
    } else {
        match url_len(t.drop_first()) {
            Some(n) => Some(n + 1),
            None => None,
        }
    }
}

/// The last `n` characters of `s` (all of it when shorter).
pub open spec fn keep_last(s: Seq<char>, n: nat) -> Seq<char> {
    if s.len() <= n {
        s
    } else {
        s.skip(s.len() - n)
    }
}

/// The scanner's state after one chunk, with the URL it reports, given the cleaned text that
/// the chunk completes.
pub open spec fn scan_clean(clean: Seq<char>) -> (Seq<char>, bool, Option<Seq<char>>) {
    match index_of(clean, web_marker()) {
        Some(k) => {
            let after = clean.skip(k + marker_prefix_len());
            match url_len(after) {
                Some(u) => (
                    Seq::empty(),
                    true,
                    if contains_seq(after.take(u as int), token_marker()) {
                        Some(after.take(u as int))
                    } else {
                        None
                    },
                ),
                None => (
                    clean.skip(k),
                    encode_utf8(clean.skip(k)).len() > max_pending_bytes(),
                    None,
                ),
            }
        },
        None => (keep_last(clean, kept_chars()), false, None),
    }
}

/// One step of the scanner: from the pending text `tail` and the `done` flag, and a new chunk
/// `text`, the next pending text, the next flag and the URL reported.
pub open spec fn scan_step(tail: Seq<char>, done: bool, text: Seq<char>) -> (
    Seq<char>,
    bool,
    Option<Seq<char>>,
) {
    if done {
        (tail, true, None)
    } else {
        scan_clean(strip(tail + text))
    }
}

/// The characters of an optional string.
pub open spec fn opt_view(r: Option<String>) -> Option<Seq<char>> {
    match r {
        Some(s) => Some(s@),
        None => None,
    }
}

/// Incrementally extracts the first `dsh web: <url>` line from streamed process output,
/// tolerating chunk boundaries and ANSI noise. Done once the line is complete.
pub struct LaunchUrlScanner {
    tail: String,
    done: bool,
}

impl LaunchUrlScanner {
    /// The pending cleaned text carried over to the next chunk is plain.
    #[verifier::type_invariant]
    spec fn inv(self) -> bool {
        is_plain(self.tail@)
    }

    /// The cleaned text carried over to the next chunk.
    pub closed spec fn pending(&self) -> Seq<char> {
        self.tail@
    }

    /// Whether the scanner has finished (it reports nothing more).
    pub closed spec fn finished(&self) -> bool {
        self.done
    }

    /// A fresh scanner.
    pub fn new() -> (r: Self)
        ensures
            r.pending() == Seq::<char>::empty(),
            !r.finished(),
    {
        LaunchUrlScanner { tail: String::new(), done: false }
    }

    /// Whether the scanner has finished.
    pub fn is_done(&self) -> (b: bool)
        ensures
            b == self.finished(),
    {
        self.done
    }

    /// Feeds one chunk of output. Returns the URL (up to the first white space or `(`) once
    /// the `dsh web: http…` line is complete and the URL carries a launch token (`token=`);
    /// a line whose URL has no token is complete too, and then nothing is reported. Once complete, or once a pending
    /// line grows beyond 8192 bytes, the scanner is done and reports nothing more.
    pub fn feed(&mut self, text: &str) -> (r: Option<String>)
        ensures
            (final(self).pending(), final(self).finished(), opt_view(r)) == scan_step(
                old(self).pending(),
                old(self).finished(),
                text@,
            ),
            is_plain(final(self).pending()),
    {
        proof {
            use_type_invariant(&*self);
        }
        if self.done {
            return None;
        }
        let mut s = chars_of(self.tail.as_str());
        let mut t = chars_of(text);
        s.append(&mut t);
        self.tail = String::new();
        let clean = strip_chars(&s);
        proof {
            lemma_strip_is_plain(s@);
        }
        let marker = vec!['d', 's', 'h', ' ', 'w', 'e', 'b', ':', ' ', 'h', 't', 't', 'p'];
        assert(marker@ =~= web_marker());
        match find_from(&clean, &marker, 0) {
            Some(k) => {
                proof {
                    lemma_index_of_from(clean@, marker@, 0);
                }
                let n = clean.len();
                let after = sub_chars(&clean, k + 9, n);
                assert(after@ =~= clean@.skip(k + 9));
                match url_end(&after) {
                    Some(u) => {
                        self.done = true;
                        let token = vec!['t', 'o', 'k', 'e', 'n', '='];
                        assert(token@ =~= token_marker());
                        let url_chars = sub_chars(&after, 0, u);
                        assert(url_chars@ =~= after@.take(u as int));
                        if find_from(&url_chars, &token, 0).is_some() {
                            let url = string_from_range(&after, 0, u);
                            assert(after@.subrange(0, u as int) =~= after@.take(u as int));
                            Some(url)
                        } else {
                            None
                        }
                    },
                    None => {
                        assert(clean@.subrange(k as int, n as int) =~= clean@.skip(k as int));
                        self.tail = string_from_range(&clean, k, n);
                        if utf8_len_exceeds(&clean, k, 8192) {
                            self.done = true;
                        }
                        None
                    },
                }
            },
            None => {
                let n = clean.len();
                let lo = if n > 32 {
                    n - 32
                } else {
                    0
                };
                assert(clean@.subrange(lo as int, n as int) =~= keep_last(clean@, kept_chars()));
                self.tail = string_from_range(&clean, lo, n);
                None
            },
        }
    }

    /// Feeds a chunk of raw output bytes, decoded as UTF-8 with invalid sequences replaced
    /// (as `feed` on the decoded text).
    pub fn capture(&mut self, bytes: &[u8]) -> (r: Option<String>)
        ensures
            (final(self).pending(), final(self).finished(), opt_view(r)) == scan_step(
                old(self).pending(),
                old(self).finished(),
                utf8_lossy(bytes@),
            ),
            is_plain(final(self).pending()),
    {
        proof {
            use_type_invariant(&*self);
        }
        if self.done {
            return None;
        }
        let text = decode_utf8_lossy(bytes);
        self.feed(text.as_str())
    }
}

impl Default for LaunchUrlScanner {
    fn default() -> (r: Self)
        ensures
            r.pending() == Seq::<char>::empty(),
            !r.finished(),
    {
        LaunchUrlScanner::new()
    }
}

/// Once finished, a scanner ignores whatever it is fed: it reports nothing and keeps its
/// state.
pub proof fn lemma_finished_is_final(tail: Seq<char>, text: Seq<char>)
    ensures
        scan_step(tail, true, text) == (tail, true, Option::<Seq<char>>::None),
{
}

/// A scanner reports at most one URL: the step that reports it finishes the scanner, and the
/// next step reports nothing.
pub proof fn lemma_reports_once(tail: Seq<char>, done: bool, a: Seq<char>, b: Seq<char>)
    requires
        scan_step(tail, done, a).2 is Some,
    ensures
        scan_step(tail, done, a).1,
        scan_step(scan_step(tail, done, a).0, scan_step(tail, done, a).1, b).2 is None,
{
}

/// The pending text after any step is plain.
pub proof fn lemma_step_keeps_plain(tail: Seq<char>, done: bool, text: Seq<char>)
    requires
        is_plain(tail),
    ensures
        is_plain(scan_step(tail, done, text).0),
{
    if !done {
        let clean = strip(tail + text);
        lemma_strip_is_plain(tail + text);
        assert forall|i: int| 0 <= i < scan_step(tail, done, text).0.len() implies scan_step(
            tail,
            done,
            text,
        ).0[i] != crate::ansi::cr() && scan_step(tail, done, text).0[i] != esc() by {
            match index_of(clean, web_marker()) {
                Some(k) => {
                    crate::text::lemma_index_of_from(clean, web_marker(), 0);
                    assert(clean.skip(k)[i] == clean[k + i]);
                },
                None => {
                    if clean.len() > kept_chars() {
                        assert(clean.skip(clean.len() - kept_chars())[i] == clean[clean.len()
                            - kept_chars() + i]);
                    }
                },
            }
        }
    }
}

/// Where `url_len` stops: at the first character that ends the URL.
proof fn lemma_url_len_stops(t: Seq<char>)
    ensures
        url_len(t) matches Some(n) ==> n < t.len() && ends_url(t[n as int]) && forall|i: int|
            0 <= i < n ==> !ends_url(#[trigger] t[i]),
    decreases t.len(),
{
    if t.len() > 0 && !ends_url(t[0]) {
        lemma_url_len_stops(t.drop_first());
        if let Some(n) = url_len(t) {
            assert forall|i: int| 0 <= i < n implies !ends_url(#[trigger] t[i]) by {
                if i > 0 {
                    assert(t[i] == t.drop_first()[i - 1]);
                }
            }
        }
    }
}

/// A reported URL is an authenticated `http` URL: it starts with `http`, carries a launch
/// token (`token=`), and holds no white space and no `(`.
pub proof fn lemma_reported_url_shape(tail: Seq<char>, done: bool, text: Seq<char>)
    ensures
        scan_step(tail, done, text).2 matches Some(u) ==> u.len() >= 4 && u.take(4) == seq![
            'h',
            't',
            't',
            'p',
        ] && contains_seq(u, token_marker()) && forall|i: int| 0 <= i < u.len() ==> !ends_url(
            #[trigger] u[i],
        ),
{
    if !done {
        let clean = strip(tail + text);
        lemma_index_of_from(clean, web_marker(), 0);
        if let Some(k) = index_of(clean, web_marker()) {
            let after = clean.skip(k + marker_prefix_len());
            lemma_url_len_stops(after);
            if let Some(n) = url_len(after) {
                assert(clean.subrange(k, k + 13) == web_marker());
                assert forall|i: int| 0 <= i < 4 implies after[i] == web_marker()[9 + i] by {
                    assert(after[i] == clean[k + 9 + i]);
                    assert(clean.subrange(k, k + 13)[9 + i] == clean[k + 9 + i]);
                }
                assert(!ends_url(after[0]) && !ends_url(after[1]) && !ends_url(after[2]) && !ends_url(
                    after[3],
                ));
                assert(n >= 4);
                let u = after.take(n as int);
                assert(u.take(4) =~= seq!['h', 't', 't', 'p']);
                assert forall|i: int| 0 <= i < u.len() implies !ends_url(#[trigger] u[i]) by {
                    assert(u[i] == after[i]);
                }
            }
        }
    }
}

/// Plain text in front of a chunk passes through stripping unchanged.
proof fn lemma_strip_plain_prefix(p: Seq<char>, x: Seq<char>)
    requires
        is_plain(p),
    ensures
        strip(p + x) == p + strip(x),
{
    lemma_strip_concat(p, x);
    lemma_strip_plain_identity(p);
}

/// A URL that ends within `a` ends at the same place when more text follows.
proof fn lemma_url_len_extend(a: Seq<char>, b: Seq<char>)
    requires
        url_len(a) is Some,
    ensures
        url_len(a + b) == url_len(a),
    decreases a.len(),
{
    assert((a + b)[0] == a[0]);
    if !ends_url(a[0]) {
        assert((a + b).drop_first() =~= a.drop_first() + b);
        lemma_url_len_extend(a.drop_first(), b);
    }
}

/// A step that gave up: finished, yet with a pending line (which grew too long).
pub open spec fn gave_up(st: (Seq<char>, bool, Option<Seq<char>>)) -> bool {
    st.1 && st.0.len() > 0
}

/// The first of two reports.
pub open spec fn first_report(a: Option<Seq<char>>, b: Option<Seq<char>>) -> Option<Seq<char>> {
    if a is Some {
        a
    } else {
        b
    }
}

/// Scanning cleaned text `c1` and then cleaned text `cb` (after what the first scan leaves
/// pending, unless it finished) is scanning `c1 + cb` at once, when the first scan did not
/// give up.
proof fn lemma_scan_clean_split(c1: Seq<char>, cb: Seq<char>)
    requires
        is_plain(scan_clean(c1).0),
        !gave_up(scan_clean(c1)),
    ensures
        !scan_clean(c1).1 ==> scan_clean(scan_clean(c1).0 + cb) == scan_clean(c1 + cb),
        scan_clean(c1).1 ==> scan_clean(c1 + cb) == scan_clean(c1),
{
    let c3 = c1 + cb;
    let t1 = scan_clean(c1).0;
    let c2 = t1 + cb;
    let m = web_marker();
    lemma_index_of_from(c1, m, 0);
    match index_of(c1, m) {
        Some(k) => {
            lemma_index_of_extend(c1, cb, m);
            let after1 = c1.skip(k + marker_prefix_len());
            assert(c3.skip(k + marker_prefix_len()) =~= after1 + cb);
            if url_len(after1) is Some {
                lemma_url_len_extend(after1, cb);
                let u = url_len(after1)->0;
                crate::launch::lemma_url_len_stops(after1);
                assert((after1 + cb).take(u as int) =~= after1.take(u as int));
            } else {
                assert(c2 =~= c3.skip(k));
                lemma_occurs_prefix(c1, cb, m, k);
                crate::text::lemma_occurs_skip(c3, m, k, 0);
                lemma_first_occurrence(c2, m, 0, 0);
                assert(c2.skip(0 + marker_prefix_len()) =~= c3.skip(k + marker_prefix_len()));
                assert(c2.skip(0) =~= c2);
            }
        },
        None => {
            let off: int = if c1.len() <= kept_chars() {
                0
            } else {
                c1.len() - kept_chars()
            };
            assert(c2 =~= c3.skip(off));
            assert forall|j: int| 0 <= j < off implies !occurs_at(c3, m, j) by {
                lemma_occurs_prefix(c1, cb, m, j);
            }
            lemma_index_of_from_skip_none(c3, m, off);
            lemma_index_of_skip(c3, m, off);
            match index_of(c3, m) {
                Some(k3) => {
                    lemma_index_of_from(c3, m, off);
                    assert(c2.skip((k3 - off) + marker_prefix_len()) =~= c3.skip(
                        k3 + marker_prefix_len(),
                    ));
                    assert(c2.skip(k3 - off) =~= c3.skip(k3));
                },
                None => {
                    assert(keep_last(c2, kept_chars()) =~= keep_last(c3, kept_chars()));
                },
            }
        },
    }
}

/// Chunk boundaries do not matter. Feeding `a` and then `b` leaves the scanner where feeding
/// `a + b` at once leaves it, and the first report of the two steps is what that reports,
/// provided that the boundary does not cut an escape sequence (stripping `a + b` is stripping
/// `a` and `b`) and that the first chunk does not give up on an overlong pending line.
pub proof fn lemma_chunk_boundary(tail: Seq<char>, a: Seq<char>, b: Seq<char>)
    requires
        is_plain(tail),
        strip(a + b) == strip(a) + strip(b),
        !gave_up(scan_step(tail, false, a)),
    ensures
        ({
            let first = scan_step(tail, false, a);
            let second = scan_step(first.0, first.1, b);
            (second.0, second.1, first_report(first.2, second.2)) == scan_step(tail, false, a + b)
        }),
{
    let ca = strip(a);
    let cb = strip(b);
    lemma_strip_plain_prefix(tail, a);
    lemma_strip_plain_prefix(tail, a + b);
    assert(tail + (a + b) =~= (tail + a) + b);
    let c1 = tail + ca;
    assert(tail + (ca + cb) =~= c1 + cb);
    lemma_step_keeps_plain(tail, false, a);
    let t1 = scan_clean(c1).0;
    lemma_strip_plain_prefix(t1, b);
    lemma_scan_clean_split(c1, cb);
    if !scan_clean(c1).1 && index_of(c1, web_marker()) is Some {
        assert(scan_clean(c1).2 is None);
    }
}

/// The concatenation of `chunks`.
pub open spec fn flatten(chunks: Seq<Seq<char>>) -> Seq<char>
    decreases chunks.len(),
{
    if chunks.len() == 0 {
        Seq::empty()
    } else {
        chunks[0] + flatten(chunks.drop_first())
    }
}

/// Feeding `chunks` one after another: the final pending text and flag, and the first report.
pub open spec fn feed_all(tail: Seq<char>, done: bool, chunks: Seq<Seq<char>>) -> (
    Seq<char>,
    bool,
    Option<Seq<char>>,
)
    decreases chunks.len(),
{
    if chunks.len() == 0 {
        (tail, done, None)
    } else {
        let first = scan_step(tail, done, chunks[0]);
        let rest = feed_all(first.0, first.1, chunks.drop_first());
        (rest.0, rest.1, first_report(first.2, rest.2))
    }
}

/// Chunk boundaries do not matter, for any number of chunks: feeding the chunks one after
/// another (at least one) leaves the scanner where feeding their concatenation at once leaves
/// it, and its first report is what that reports. This holds when no chunk but the last holds an escape
/// character (so that no boundary cuts an escape sequence) and no step before the last gives
/// up on an overlong pending line.
pub proof fn lemma_chunks(tail: Seq<char>, chunks: Seq<Seq<char>>)
    requires
        is_plain(tail),
        chunks.len() > 0,
        forall|i: int, j: int|
            0 <= i < chunks.len() - 1 && 0 <= j < chunks[i].len() ==> #[trigger] chunks[i][j]
                != esc(),
        forall|i: int| 0 < i < chunks.len() ==> !gave_up(#[trigger] feed_all(tail, false, chunks.take(i))),
    ensures
        feed_all(tail, false, chunks) == scan_step(tail, false, flatten(chunks)),
    decreases chunks.len(),
{
    if chunks.len() == 1 {
        let c0 = chunks[0];
        assert(chunks.drop_first() =~= Seq::<Seq<char>>::empty());
        assert(flatten(Seq::<Seq<char>>::empty()) == Seq::<char>::empty());
        assert(c0 + Seq::<char>::empty() =~= c0);
        let first = scan_step(tail, false, c0);
        assert(feed_all(first.0, first.1, Seq::<Seq<char>>::empty()) == (first.0, first.1, Option::<Seq<char>>::None));
    } else {
        let c0 = chunks[0];
        let rest = chunks.drop_first();
        assert(flatten(chunks) == c0 + flatten(rest));
        lemma_strip_concat(c0, flatten(rest));
        assert(chunks.take(1) =~= seq![c0]);
        assert(seq![c0].drop_first() =~= Seq::<Seq<char>>::empty());
        let first = scan_step(tail, false, c0);
        assert(feed_all(first.0, first.1, Seq::<Seq<char>>::empty()) == (first.0, first.1, Option::<Seq<char>>::None));
        assert(feed_all(tail, false, chunks.take(1)) == scan_step(tail, false, c0));
        lemma_chunk_boundary(tail, c0, flatten(rest));
        lemma_step_keeps_plain(tail, false, c0);
        if !first.1 {
            assert forall|i: int| 0 < i < rest.len() implies !gave_up(
                #[trigger] feed_all(first.0, false, rest.take(i)),
            ) by {
                assert(chunks.take(i + 1).drop_first() =~= rest.take(i));
                assert(chunks.take(i + 1)[0] == c0);
                assert(!gave_up(feed_all(tail, false, chunks.take(i + 1))));
            }
            assert forall|i: int, j: int|
                0 <= i < rest.len() - 1 && 0 <= j < rest[i].len() implies #[trigger] rest[i][j]
                != esc() by {
                assert(rest[i] == chunks[i + 1]);
            }
            lemma_chunks(first.0, rest);
        } else {
            lemma_feed_all_finished(first.0, rest);
        }
    }
}

/// UTF-8 lengths add up over concatenation.
proof fn lemma_utf8_len_concat(a: Seq<char>, b: Seq<char>)
    ensures
        encode_utf8(a + b).len() == encode_utf8(a).len() + encode_utf8(b).len(),
    decreases a.len(),
{
    if a.len() > 0 {
        assert((a + b).drop_first() =~= a.drop_first() + b);
        assert((a + b)[0] == a[0]);
        lemma_utf8_len_concat(a.drop_first(), b);
    } else {
        assert(a + b =~= b);
    }
}

/// The concatenation of the first `i` chunks, then of the rest, is that of all.
proof fn lemma_flatten_split(chunks: Seq<Seq<char>>, i: int)
    requires
        0 <= i <= chunks.len(),
    ensures
        flatten(chunks.take(i)) + flatten(chunks.skip(i)) == flatten(chunks),
    decreases i,
{
    if i == 0 {
        assert(chunks.take(0) =~= Seq::<Seq<char>>::empty());
        assert(chunks.skip(0) =~= chunks);
        assert(Seq::<char>::empty() + flatten(chunks) =~= flatten(chunks));
    } else {
        let rest = chunks.drop_first();
        lemma_flatten_split(rest, i - 1);
        assert(chunks.take(i).drop_first() =~= rest.take(i - 1));
        assert(chunks.take(i)[0] == chunks[0]);
        assert(chunks.skip(i) =~= rest.skip(i - 1));
        assert(flatten(chunks.take(i)) + flatten(chunks.skip(i)) =~= chunks[0] + (flatten(
            rest.take(i - 1),
        ) + flatten(rest.skip(i - 1))));
    }
}

/// Chunks without escape characters concatenate to text without them.
proof fn lemma_flatten_no_esc(chunks: Seq<Seq<char>>)
    requires
        forall|i: int, j: int|
            0 <= i < chunks.len() && 0 <= j < chunks[i].len() ==> #[trigger] chunks[i][j] != esc(),
    ensures
        forall|j: int| 0 <= j < flatten(chunks).len() ==> flatten(chunks)[j] != esc(),
    decreases chunks.len(),
{
    if chunks.len() > 0 {
        let rest = chunks.drop_first();
        assert forall|i: int, j: int| 0 <= i < rest.len() && 0 <= j < rest[i].len() implies #[trigger] rest[i][j]
            != esc() by {
            assert(rest[i] == chunks[i + 1]);
        }
        lemma_flatten_no_esc(rest);
        assert forall|j: int| 0 <= j < flatten(chunks).len() implies flatten(chunks)[j] != esc() by {
            if j < chunks[0].len() {
                assert(flatten(chunks)[j] == chunks[0][j]);
            } else {
                assert(flatten(chunks)[j] == flatten(rest)[j - chunks[0].len()]);
            }
        }
    }
}

/// Where the launch line that starts at `k` in cleaned text `c` ends: after its URL, or at the
/// end of `c` while the URL is incomplete.
pub open spec fn launch_line_end(c: Seq<char>, k: int) -> int {
    match url_len(c.skip(k + marker_prefix_len())) {
        Some(u) => k + marker_prefix_len() + u,
        None => c.len() as int,
    }
}

/// The launch line of cleaned text `c`, from its first `dsh web: http` up to the end of the
/// URL, takes at most 8192 bytes (trivially so when `c` has none).
pub open spec fn launch_line_fits(c: Seq<char>) -> bool {
    match index_of(c, web_marker()) {
        Some(k) => encode_utf8(c.subrange(k, launch_line_end(c, k))).len() <= max_pending_bytes(),
        None => true,
    }
}

/// A text in which no URL ends holds no character that ends one.
proof fn lemma_url_len_none(t: Seq<char>)
    requires
        url_len(t) is None,
    ensures
        forall|i: int| 0 <= i < t.len() ==> !ends_url(#[trigger] t[i]),
    decreases t.len(),
{
    if t.len() > 0 {
        lemma_url_len_none(t.drop_first());
        assert forall|i: int| 0 <= i < t.len() implies !ends_url(#[trigger] t[i]) by {
            if i > 0 {
                assert(t[i] == t.drop_first()[i - 1]);
            }
        }
    }
}

/// No step gives up while the launch line of the whole cleaned text stays within the
/// pending-line limit.
proof fn lemma_no_give_up(tail: Seq<char>, chunks: Seq<Seq<char>>, i: int)
    requires
        is_plain(tail),
        0 < i <= chunks.len(),
        forall|x: int, j: int|
            0 <= x < chunks.len() && 0 <= j < chunks[x].len() ==> #[trigger] chunks[x][j] != esc(),
        launch_line_fits(strip(tail + flatten(chunks))),
    ensures
        !gave_up(feed_all(tail, false, chunks.take(i))),
    decreases i,
{
    let pre = chunks.take(i);
    assert forall|x: int| 0 < x < pre.len() implies !gave_up(
        #[trigger] feed_all(tail, false, pre.take(x)),
    ) by {
        assert(pre.take(x) =~= chunks.take(x));
        lemma_no_give_up(tail, chunks, x);
    }
    assert forall|x: int, j: int| 0 <= x < pre.len() && 0 <= j < pre[x].len() implies #[trigger] pre[x][j]
        != esc() by {
        assert(pre[x] == chunks[x]);
    }
    lemma_chunks(tail, pre);
    lemma_flatten_no_esc(pre);
    let text = tail + flatten(pre);
    assert forall|j: int| 0 <= j < text.len() implies text[j] != esc() by {
        if j >= tail.len() {
            assert(text[j] == flatten(pre)[j - tail.len()]);
        }
    }
    lemma_flatten_split(chunks, i);
    let rest = flatten(chunks.skip(i));
    assert(tail + flatten(chunks) =~= text + rest);
    lemma_strip_concat(text, rest);
    let clean = strip(text);
    let whole = clean + strip(rest);
    let m = web_marker();
    if let Some(k) = index_of(clean, m) {
        lemma_index_of_from(clean, m, 0);
        lemma_index_of_extend(clean, strip(rest), m);
        let after = clean.skip(k + marker_prefix_len());
        if url_len(after) is None {
            // The pending line is a prefix of the launch line of the whole text.
            lemma_url_len_none(after);
            let wa = whole.skip(k + marker_prefix_len());
            assert(wa =~= after + strip(rest));
            lemma_url_len_prefix(wa, after.len() as int);
            assert(wa.skip(after.len() as int) =~= strip(rest));
            lemma_url_len_stops(wa);
            let e = launch_line_end(whole, k);
            assert(clean.len() <= e <= whole.len());
            assert(whole.subrange(k, e) =~= clean.skip(k) + whole.subrange(clean.len() as int, e));
            lemma_utf8_len_concat(clean.skip(k), whole.subrange(clean.len() as int, e));
        }
    }
}

/// Chunk boundaries do not matter when the output holds no escape sequences and its launch
/// line fits the pending-line limit: feeding escape-free chunks one after another (at least
/// one) to a scanner is feeding their concatenation at once, when the launch line of the
/// cleaned text (what was pending, then the chunks), from its `dsh web: http` up to the end of
/// the URL, takes at most 8192 bytes.
pub proof fn lemma_chunks_plain(tail: Seq<char>, chunks: Seq<Seq<char>>)
    requires
        is_plain(tail),
        chunks.len() > 0,
        forall|i: int, j: int|
            0 <= i < chunks.len() && 0 <= j < chunks[i].len() ==> #[trigger] chunks[i][j] != esc(),
        launch_line_fits(strip(tail + flatten(chunks))),
    ensures
        feed_all(tail, false, chunks) == scan_step(tail, false, flatten(chunks)),
{
    assert forall|i: int| 0 < i < chunks.len() implies !gave_up(
        #[trigger] feed_all(tail, false, chunks.take(i)),
    ) by {
        lemma_no_give_up(tail, chunks, i);
    }
    lemma_chunks(tail, chunks);
}

/// A finished scanner stays where it is, whatever chunks follow, and reports nothing.
proof fn lemma_feed_all_finished(tail: Seq<char>, chunks: Seq<Seq<char>>)
    ensures
        feed_all(tail, true, chunks) == (tail, true, Option::<Seq<char>>::None),
    decreases chunks.len(),
{
    if chunks.len() > 0 {
        lemma_feed_all_finished(tail, chunks.drop_first());
    }
}

/// Whether `c` ends the URL.
fn char_ends_url(c: char) -> (b: bool)
    ensures
        b == ends_url(c),
{
    char_is_whitespace(c) || c == '('
}

/// The length of the URL at the start of `t`, when a character that ends it follows.
fn url_end(t: &Vec<char>) -> (r: Option<usize>)
    ensures
        r matches Some(u) ==> url_len(t@) == Some(u as nat) && u < t.len(),
        r is None ==> url_len(t@) is None,
{
    let n = t.len();
    let mut i: usize = 0;
    while i < n
        invariant
            i <= n == t.len(),
            forall|m: int| 0 <= m < i ==> !ends_url(#[trigger] t@[m]),
        decreases n - i,
    {
        if char_ends_url(t[i]) {
            proof {
                lemma_url_len_prefix(t@, i as int);
            }
            return Some(i);
        }
        i += 1;
    }
    proof {
        lemma_url_len_prefix(t@, n as int);
    }
    None
}

/// `url_len` skips a prefix without URL-ending characters.
proof fn lemma_url_len_prefix(t: Seq<char>, i: int)
    requires
        0 <= i <= t.len(),
        forall|m: int| 0 <= m < i ==> !ends_url(#[trigger] t[m]),
    ensures
        url_len(t) == (match url_len(t.skip(i)) {
            Some(n) => Some((n + i) as nat),
            None => None,
        }),
    decreases i,
{
    if i == 0 {
        assert(t.skip(0) =~= t);
        match url_len(t) {
            Some(n) => {},
            None => {},
        }
    } else {
        assert(!ends_url(t[0]));
        assert(t.drop_first().skip(i - 1) =~= t.skip(i));
        lemma_url_len_prefix(t.drop_first(), i - 1);
    }
}

/// The number of UTF-8 bytes that `c` takes.
fn utf8_width(c: char) -> (w: usize)
    ensures
        w == vstd::utf8::encode_scalar(c as u32).len(),
        1 <= w <= 4,
{
    proof {
        vstd::utf8::char_is_scalar(c);
    }
    let u = c as u32;
    if u <= 0x7f {
        1
    } else if u <= 0x7ff {
        2
    } else if u <= 0xffff {
        3
    } else {
        4
    }
}

/// Whether the UTF-8 encoding of `v[lo..]` is longer than `limit` bytes.
fn utf8_len_exceeds(v: &Vec<char>, lo: usize, limit: usize) -> (b: bool)
    requires
        lo <= v.len(),
        limit <= 8192,
    ensures
        b == (encode_utf8(v@.skip(lo as int)).len() > limit),
{
    let n = v.len();
    let mut i: usize = lo;
    let mut acc: usize = 0;
    while i < n
        invariant
            lo <= i <= n == v.len(),
            acc <= limit <= 8192,
            encode_utf8(v@.skip(lo as int)).len() == acc + encode_utf8(v@.skip(i as int)).len(),
        decreases n - i,
    {
        assert(v@.skip(i as int).drop_first() =~= v@.skip(i + 1));
        assert(v@.skip(i as int)[0] == v@[i as int]);
        acc = acc + utf8_width(v[i]);
        i += 1;
        if acc > limit {
            return true;
        }
    }
    assert(v@.skip(n as int).len() == 0);
    false
}

} // verus!
