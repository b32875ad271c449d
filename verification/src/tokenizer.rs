//! Cutting a line into segments and a segment into words.
use vstd::prelude::*;
use vstd::string::*;

verus! {

/// The views of a sequence of strings, in order.
pub open spec fn texts(v: Seq<String>) -> Seq<Seq<char>> {
    Seq::new(v.len(), |i: int| v[i]@)
}

/// Whether `c` has the Unicode `White_Space` property.
pub open spec fn is_space(c: char) -> bool {
    ||| '\u{9}' <= c <= '\u{d}'
    ||| c == ' '
    ||| c == '\u{85}'
    ||| c == '\u{a0}'
    ||| c == '\u{1680}'
    ||| '\u{2000}' <= c <= '\u{200a}'
    ||| c == '\u{2028}'
    ||| c == '\u{2029}'
    ||| c == '\u{202f}'
    ||| c == '\u{205f}'
    ||| c == '\u{3000}'
}

/// What ends a run of characters.
#[derive(Debug, Clone, Copy, PartialEq, Eq)]
pub enum Stop {
    /// Whitespace.
    Space,
    /// The segment separator `;`.
    Semicolon,
    /// Either of the two.
    Any,
}

/// Whether `c` ends a run of the given kind.
pub open spec fn stops(kind: Stop, c: char) -> bool {
    match kind {
        Stop::Space => is_space(c),
        Stop::Semicolon => c == ';',
        Stop::Any => is_space(c) || c == ';',
    }
}

/// Length of the longest prefix of `s` that holds no stopping character.
pub open spec fn run_len(s: Seq<char>, kind: Stop) -> nat
    decreases s.len(),
{
    if s.len() == 0 || stops(kind, s[0]) {
        0
    } else {
        1 + run_len(s.skip(1), kind)
    }
}

/// The maximal runs of non-whitespace characters of `s`, in order.
pub open spec fn words(s: Seq<char>) -> Seq<Seq<char>>
    decreases s.len(),
{
    if s.len() == 0 {
        Seq::empty()
    } else if is_space(s[0]) {
        words(s.skip(1))
    } else {
        let n = run_len(s, Stop::Space) as int;
        if 0 < n <= s.len() {
            seq![s.take(n)] + words(s.skip(n))
        } else {
            Seq::empty()
        }
    }
}

/// The non-empty pieces that `;` cuts `s` into, in order.
pub open spec fn segments(s: Seq<char>) -> Seq<Seq<char>>
    decreases s.len(),
{
    let n = run_len(s, Stop::Semicolon) as int;
    if n >= s.len() {
        if s.len() == 0 {
            Seq::empty()
        } else {
            seq![s]
        }
    } else if n == 0 {
        segments(s.skip(1))
    } else {
        seq![s.take(n)] + segments(s.skip(n + 1))
    }
}

/// A run never reaches past the end of the sequence, and it ends at the end
/// or in front of a stopping character.
pub proof fn lemma_run_len_bounds(s: Seq<char>, kind: Stop)
    ensures
        run_len(s, kind) <= s.len(),
        run_len(s, kind) < s.len() ==> stops(kind, s[run_len(s, kind) as int]),
        forall|i: int| 0 <= i < run_len(s, kind) ==> !stops(kind, #[trigger] s[i]),
    decreases s.len(),
{
    if s.len() == 0 || stops(kind, s[0]) {
    } else {
        let t = s.skip(1);
        lemma_run_len_bounds(t, kind);
        assert forall|i: int| 0 <= i < run_len(s, kind) implies !stops(kind, #[trigger] s[i]) by {
            if i > 0 {
                assert(s[i] == t[i - 1]);
            }
        }
    }
}

/// Every word holds at least one character and no whitespace.
pub proof fn lemma_words_hold_no_space(s: Seq<char>, i: int)
    requires
        0 <= i < words(s).len(),
    ensures
        words(s)[i].len() > 0,
        forall|j: int| 0 <= j < words(s)[i].len() ==> !is_space(#[trigger] words(s)[i][j]),
    decreases s.len(),
{
    if s.len() == 0 {
    } else if is_space(s[0]) {
        lemma_words_hold_no_space(s.skip(1), i);
    } else {
        let n = run_len(s, Stop::Space) as int;
        lemma_run_len_bounds(s, Stop::Space);
        if i > 0 {
            lemma_words_hold_no_space(s.skip(n), i - 1);
        }
    }
}

/// Every segment holds at least one character and no `;`.
pub proof fn lemma_segments_hold_no_semicolon(s: Seq<char>, i: int)
    requires
        0 <= i < segments(s).len(),
    ensures
        segments(s)[i].len() > 0,
        forall|j: int| 0 <= j < segments(s)[i].len() ==> #[trigger] segments(s)[i][j] != ';',
    decreases s.len(),
{
    let n = run_len(s, Stop::Semicolon) as int;
    lemma_run_len_bounds(s, Stop::Semicolon);
    if n >= s.len() {
    } else if n == 0 {
        lemma_segments_hold_no_semicolon(s.skip(1), i);
    } else if i > 0 {
        lemma_segments_hold_no_semicolon(s.skip(n + 1), i - 1);
    }
}

/// Whether `c` is whitespace.
pub fn is_whitespace(c: char) -> (r: bool)
    ensures
        r == is_space(c),
{
    ('\u{9}' <= c && c <= '\u{d}') || c == ' ' || c == '\u{85}' || c == '\u{a0}' || c == '\u{1680}'
        || ('\u{2000}' <= c && c <= '\u{200a}') || c == '\u{2028}' || c == '\u{2029}' || c
        == '\u{202f}' || c == '\u{205f}' || c == '\u{3000}'
}

/// Whether `c` ends a run of the given kind.
pub fn is_stop(kind: &Stop, c: char) -> (r: bool)
    ensures
        r == stops(*kind, c),
{
    match kind {
        Stop::Space => is_whitespace(c),
        Stop::Semicolon => c == ';',
        Stop::Any => is_whitespace(c) || c == ';',
    }
}

/// The position at which the run that starts at `start` ends.
pub(crate) fn run_end(s: &str, start: usize, kind: &Stop) -> (end: usize)
    requires
        start <= s@.len(),
    ensures
        end == start + run_len(s@.skip(start as int), *kind),
        end <= s@.len(),
{
    let n: usize = s.unicode_len();
    let mut i: usize = start;
    proof {
        lemma_run_len_bounds(s@.skip(start as int), *kind);
    }
    while i < n && !is_stop(kind, s.get_char(i))
        invariant
            start <= i <= n,
            n == s@.len(),
            run_len(s@.skip(start as int), *kind) == (i - start) + run_len(
                s@.skip(i as int),
                *kind,
            ),
        decreases n - i,
    {
        proof {
            assert(s@.skip(i as int).skip(1) =~= s@.skip(i + 1));
        }
        i += 1;
    }
    i
}

/// Cuts a segment into its whitespace-delimited words.
pub fn split_words(segment: &str) -> (out: Vec<String>)
    ensures
        texts(out@) == words(segment@),
{
    let n: usize = segment.unicode_len();
    let mut out: Vec<String> = Vec::new();
    let mut i: usize = 0;
    proof {
        assert(segment@.skip(0) =~= segment@);
    }
    while i < n
        invariant
            i <= n,
            n == segment@.len(),
            words(segment@) == texts(out@) + words(segment@.skip(i as int)),
        decreases n - i,
    {
        let ghost rest = segment@.skip(i as int);
        if is_whitespace(segment.get_char(i)) {
            proof {
                assert(rest.skip(1) =~= segment@.skip(i + 1));
            }
            i += 1;
        } else {
            let end: usize = run_end(segment, i, &Stop::Space);
            let word: String = segment.substring_char(i, end).to_owned();
            proof {
                assert(rest.take(end - i) =~= segment@.subrange(i as int, end as int));
                assert(rest.skip(end - i) =~= segment@.skip(end as int));
            }
            out.push(word);
            i = end;
        }
    }
    out
}

/// Cuts a line at each `;` and keeps the pieces that are not empty.
pub fn split_segments(line: &str) -> (out: Vec<String>)
    ensures
        texts(out@) == segments(line@),
{
    let n: usize = line.unicode_len();
    let mut out: Vec<String> = Vec::new();
    let mut i: usize = 0;
    proof {
        assert(line@.skip(0) =~= line@);
    }
    while i < n
        invariant
            i <= n,
            n == line@.len(),
            segments(line@) == texts(out@) + segments(line@.skip(i as int)),
        decreases n - i,
    {
        let ghost rest = line@.skip(i as int);
        let end: usize = run_end(line, i, &Stop::Semicolon);
        proof {
            lemma_run_len_bounds(rest, Stop::Semicolon);
        }
        if end > i {
            let piece: String = line.substring_char(i, end).to_owned();
            out.push(piece);
            proof {
                assert(rest.take(end - i) =~= line@.subrange(i as int, end as int));
                if end < n {
                    assert(rest.skip(end - i + 1) =~= line@.skip(end + 1));
                }
            }
        } else {
            proof {
                assert(rest.skip(1) =~= line@.skip(i + 1));
            }
        }
        i = if end < n { end + 1 } else { n };
    }
    out
}

} // verus!
