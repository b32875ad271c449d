//! Reading a line in one pass, and why that gives what cutting it into
//! segments first gives.
use vstd::prelude::*;
use vstd::string::*;
use crate::element::{Chain, ElementView, ParseError};
use crate::parser::{emit, emitted, line_chains, result_views};
use crate::tokenizer::{
    is_space, is_whitespace, lemma_run_len_bounds, run_end, run_len, segments, stops, texts,
    words, Stop,
};

verus! {

/// What one pass from left to right over `s` gives, `held` being the words
/// of the current segment that were read before `s`: whitespace is passed
/// over, a word ends at whitespace or `;`, and at each `;` and at the end
/// the words held are parsed.
pub open spec fn scanned(s: Seq<char>, held: Seq<Seq<char>>) -> Seq<
    Result<Seq<ElementView>, ParseError>,
>
    decreases s.len(),
{
    if s.len() == 0 {
        emitted(held)
    } else if s[0] == ';' {
        emitted(held) + scanned(s.skip(1), Seq::empty())
    } else if is_space(s[0]) {
        scanned(s.skip(1), held)
    } else {
        let n = run_len(s, Stop::Any) as int;
        if 0 < n <= s.len() {
            scanned(s.skip(n), held.push(s.take(n)))
        } else {
            Seq::empty()
        }
    }
}

/// The part of `s` in front of its first `;`.
pub open spec fn first_segment(s: Seq<char>) -> Seq<char> {
    s.take(run_len(s, Stop::Semicolon) as int)
}

/// The part of `s` behind its first `;`.
pub open spec fn after_first_segment(s: Seq<char>) -> Seq<char> {
    let n = run_len(s, Stop::Semicolon) as int;
    if n < s.len() {
        s.skip(n + 1)
    } else {
        Seq::empty()
    }
}

/// A run has the length `k` if no character in front of `k` stops it and
/// the sequence ends at `k` or holds a stopping character there.
pub proof fn lemma_run_len_is(s: Seq<char>, kind: Stop, k: int)
    requires
        0 <= k <= s.len(),
        forall|i: int| 0 <= i < k ==> !stops(kind, #[trigger] s[i]),
        k == s.len() || stops(kind, s[k]),
    ensures
        run_len(s, kind) == k,
    decreases k,
{
    if k > 0 {
        let t = s.skip(1);
        assert forall|i: int| 0 <= i < k - 1 implies !stops(kind, #[trigger] t[i]) by {
        }
        lemma_run_len_is(t, kind, k - 1);
    }
}

/// The chains of a line are those of its first segment and then those of
/// what follows the first `;`.
pub proof fn lemma_chains_by_first_segment(s: Seq<char>)
    ensures
        line_chains(s) == emitted(words(first_segment(s))) + line_chains(after_first_segment(s)),
{
    let n = run_len(s, Stop::Semicolon) as int;
    lemma_run_len_bounds(s, Stop::Semicolon);
    if n >= s.len() {
        assert(first_segment(s) =~= s);
        if s.len() > 0 {
            assert(seq![s].skip(1) =~= Seq::<Seq<char>>::empty());
        }
    } else if n > 0 {
        let segs = seq![s.take(n)] + segments(s.skip(n + 1));
        assert(segs.skip(1) =~= segments(s.skip(n + 1)));
    }
}

/// Whitespace at the front of a line changes neither the words of its first
/// segment nor what follows the segment.
proof fn lemma_skip_space(s: Seq<char>)
    requires
        s.len() > 0,
        is_space(s[0]),
    ensures
        words(first_segment(s)) == words(first_segment(s.skip(1))),
        after_first_segment(s) == after_first_segment(s.skip(1)),
{
    let t = s.skip(1);
    lemma_run_len_bounds(s, Stop::Semicolon);
    lemma_run_len_bounds(t, Stop::Semicolon);
    assert(first_segment(s).skip(1) =~= first_segment(t));
}

/// A word at the front of a line is the first word of its first segment,
/// and what follows the word has the rest of the segment's words and the
/// same line behind the segment.
proof fn lemma_skip_word(s: Seq<char>)
    requires
        s.len() > 0,
        !is_space(s[0]),
        s[0] != ';',
    ensures
        0 < run_len(s, Stop::Any) <= s.len(),
        words(first_segment(s)) == seq![s.take(run_len(s, Stop::Any) as int)] + words(
            first_segment(s.skip(run_len(s, Stop::Any) as int)),
        ),
        after_first_segment(s) == after_first_segment(s.skip(run_len(s, Stop::Any) as int)),
{
    let m = run_len(s, Stop::Any) as int;
    let n = run_len(s, Stop::Semicolon) as int;
    lemma_run_len_bounds(s, Stop::Any);
    lemma_run_len_bounds(s, Stop::Semicolon);
    assert(m <= n);
    let t = s.skip(m);
    assert forall|i: int| 0 <= i < n - m implies !stops(Stop::Semicolon, #[trigger] t[i]) by {
    }
    lemma_run_len_is(t, Stop::Semicolon, n - m);
    let head = first_segment(s);
    assert forall|i: int| 0 <= i < m implies !stops(Stop::Space, #[trigger] head[i]) by {
    }
    lemma_run_len_is(head, Stop::Space, m);
    assert(head.take(m) =~= s.take(m));
    assert(head.skip(m) =~= first_segment(t));
}

/// One pass over `s` with `held` in hand gives the chain of `held` and the
/// words of the first segment of `s`, and then the chains of the rest.
pub proof fn lemma_scanned(s: Seq<char>, held: Seq<Seq<char>>)
    ensures
        scanned(s, held) == emitted(held + words(first_segment(s))) + line_chains(
            after_first_segment(s),
        ),
    decreases s.len(),
{
    lemma_run_len_bounds(s, Stop::Semicolon);
    if s.len() == 0 {
    } else if s[0] == ';' {
        lemma_scanned(s.skip(1), Seq::empty());
        lemma_chains_by_first_segment(s.skip(1));
    } else if is_space(s[0]) {
        lemma_skip_space(s);
        lemma_scanned(s.skip(1), held);
    } else {
        lemma_skip_word(s);
        let m = run_len(s, Stop::Any) as int;
        let word = s.take(m);
        let rest = words(first_segment(s.skip(m)));
        lemma_scanned(s.skip(m), held.push(word));
        assert(held.push(word) + rest =~= held + (seq![word] + rest));
    }
}

/// Splitting and parsing commute: cutting a line at each `;`, dropping the
/// segments without a word and parsing each of the others gives exactly the
/// chains that one pass over the line gives.
pub proof fn lemma_splitting_and_parsing_commute(line: Seq<char>)
    ensures
        scanned(line, Seq::empty()) == line_chains(line),
{
    lemma_scanned(line, Seq::empty());
    lemma_chains_by_first_segment(line);
}

/// Parses a line in one pass from left to right.
pub fn parse_line(line: &str) -> (out: Vec<Result<Chain, ParseError>>)
    ensures
        result_views(out@) == scanned(line@, Seq::empty()),
        result_views(out@) == line_chains(line@),
{
    let n: usize = line.unicode_len();
    let mut out: Vec<Result<Chain, ParseError>> = Vec::new();
    let mut held: Vec<String> = Vec::new();
    let mut i: usize = 0;
    proof {
        assert(texts(held@) =~= Seq::<Seq<char>>::empty());
        assert(line@.skip(0) =~= line@);
    }
    while i < n
        invariant
            i <= n,
            n == line@.len(),
            scanned(line@, Seq::empty()) == result_views(out@) + scanned(
                line@.skip(i as int),
                texts(held@),
            ),
        decreases n - i,
    {
        let ghost rest = line@.skip(i as int);
        let ghost words_held = texts(held@);
        let c: char = line.get_char(i);
        if c == ';' {
            let tokens = held;
            held = Vec::new();
            emit(tokens, &mut out);
            proof {
                assert(texts(held@) =~= Seq::<Seq<char>>::empty());
                assert(rest.skip(1) =~= line@.skip(i + 1));
            }
            i += 1;
        } else if is_whitespace(c) {
            proof {
                assert(rest.skip(1) =~= line@.skip(i + 1));
            }
            i += 1;
        } else {
            let end: usize = run_end(line, i, &Stop::Any);
            proof {
                lemma_run_len_bounds(rest, Stop::Any);
            }
            let word: String = line.substring_char(i, end).to_owned();
            held.push(word);
            proof {
                assert(rest.take(end - i) =~= line@.subrange(i as int, end as int));
                assert(rest.skip(end - i) =~= line@.skip(end as int));
                assert(texts(held@) =~= words_held.push(rest.take(end - i)));
            }
            i = end;
        }
    }
    emit(held, &mut out);
    proof {
        lemma_splitting_and_parsing_commute(line@);
    }
    out
}

} // verus!
