//! From words to chains.
use vstd::prelude::*;
use vstd::string::*;
use crate::element::{
    element_views, fault, Chain, Command, CommandView, Element, ElementView, ParseError,
};
use crate::tokenizer::{segments, split_segments, split_words, texts, words};

verus! {

/// The operator that a word spells, if it spells one.
pub open spec fn operator_of(word: Seq<char>) -> Option<ElementView> {
    if word == seq!['&', '&'] {
        Some(ElementView::And)
    } else if word == seq!['|', '|'] {
        Some(ElementView::Or)
    } else if word == seq!['|'] {
        Some(ElementView::Pipe)
    } else {
        None
    }
}

/// How many words at the front of `toks` spell no operator.
pub open spec fn args_len(toks: Seq<Seq<char>>) -> nat
    decreases toks.len(),
{
    if toks.len() == 0 || operator_of(toks[0]) is Some {
        0
    } else {
        1 + args_len(toks.skip(1))
    }
}

/// How many words the first element of `toks` takes: one for an operator;
/// for a command its name and every word up to the next operator.
pub open spec fn first_len(toks: Seq<Seq<char>>) -> nat
    recommends
        toks.len() > 0,
{
    if operator_of(toks[0]) is Some {
        1
    } else {
        1 + args_len(toks.skip(1))
    }
}

/// The first element of `toks`.
pub open spec fn first_element(toks: Seq<Seq<char>>) -> ElementView
    recommends
        toks.len() > 0,
{
    match operator_of(toks[0]) {
        Some(op) => op,
        None => ElementView::Command(
            CommandView { binary: toks[0], args: toks.subrange(1, first_len(toks) as int) },
        ),
    }
}

/// The elements that `toks` spell, in order.
pub open spec fn elements_of(toks: Seq<Seq<char>>) -> Seq<ElementView>
    decreases toks.len(),
{
    if toks.len() == 0 {
        Seq::empty()
    } else {
        let n = first_len(toks) as int;
        if n <= toks.len() {
            seq![first_element(toks)] + elements_of(toks.skip(n))
        } else {
            Seq::empty()
        }
    }
}

/// What parsing `toks` gives: nothing where there is no word, else the chain
/// that the words spell or the reason why they spell none.
pub open spec fn parsed(toks: Seq<Seq<char>>) -> Result<Option<Seq<ElementView>>, ParseError> {
    if toks.len() == 0 {
        Ok(None)
    } else {
        match fault(elements_of(toks)) {
            Some(e) => Err(e),
            None => Ok(Some(elements_of(toks))),
        }
    }
}

/// What a group of words adds to the chains of a line: nothing where there
/// is no word, else the one result of parsing them.
pub open spec fn emitted(toks: Seq<Seq<char>>) -> Seq<Result<Seq<ElementView>, ParseError>> {
    match parsed(toks) {
        Ok(None) => Seq::empty(),
        Ok(Some(e)) => seq![Ok(e)],
        Err(x) => seq![Err(x)],
    }
}

/// What parsing each of `segs` gives, in order, without the segments that
/// hold no word.
pub open spec fn chains_of(segs: Seq<Seq<char>>) -> Seq<Result<Seq<ElementView>, ParseError>>
    decreases segs.len(),
{
    if segs.len() == 0 {
        Seq::empty()
    } else {
        emitted(words(segs[0])) + chains_of(segs.skip(1))
    }
}

/// The chains of a line: those of its segments.
pub open spec fn line_chains(line: Seq<char>) -> Seq<Result<Seq<ElementView>, ParseError>> {
    chains_of(segments(line))
}

/// The views of the results of parsing, in order.
pub open spec fn result_views(v: Seq<Result<Chain, ParseError>>) -> Seq<
    Result<Seq<ElementView>, ParseError>,
> {
    Seq::new(
        v.len(),
        |i: int|
            match v[i] {
                Ok(c) => Ok(c@),
                Err(e) => Err(e),
            },
    )
}

/// The arguments of a command end within the words.
pub proof fn lemma_args_len_bounds(toks: Seq<Seq<char>>)
    ensures
        args_len(toks) <= toks.len(),
        args_len(toks) < toks.len() ==> operator_of(toks[args_len(toks) as int]) is Some,
        forall|i: int| 0 <= i < args_len(toks) ==> operator_of(#[trigger] toks[i]) is None,
    decreases toks.len(),
{
    if toks.len() == 0 || operator_of(toks[0]) is Some {
    } else {
        let t = toks.skip(1);
        lemma_args_len_bounds(t);
        assert forall|i: int| 0 <= i < args_len(toks) implies operator_of(#[trigger] toks[i])
            is None by {
            if i > 0 {
                assert(toks[i] == t[i - 1]);
            }
        }
    }
}

/// Operators come first: neither the name nor an argument of a parsed
/// command spells an operator.
pub proof fn lemma_commands_hold_no_operator(toks: Seq<Seq<char>>, i: int)
    requires
        0 <= i < elements_of(toks).len(),
        elements_of(toks)[i] is Command,
    ensures
        operator_of(elements_of(toks)[i]->Command_0.binary) is None,
        forall|j: int|
            0 <= j < elements_of(toks)[i]->Command_0.args.len() ==> operator_of(
                #[trigger] elements_of(toks)[i]->Command_0.args[j],
            ) is None,
    decreases toks.len(),
{
    let t = toks.skip(1);
    lemma_args_len_bounds(t);
    let n = first_len(toks) as int;
    if i == 0 {
        let args = first_element(toks)->Command_0.args;
        assert forall|j: int| 0 <= j < args.len() implies operator_of(#[trigger] args[j])
            is None by {
        }
    } else {
        lemma_commands_hold_no_operator(toks.skip(n), i - 1);
    }
}

/// Reads a word as an operator.
pub fn parse_operator(word: &str) -> (r: Option<Element>)
    ensures
        match r {
            Some(e) => operator_of(word@) == Some(e@),
            None => operator_of(word@) is None,
        },
{
    let n: usize = word.unicode_len();
    if n == 1 {
        if word.get_char(0) == '|' {
            proof {
                assert(word@ =~= seq!['|']);
            }
            return Some(Element::Pipe);
        }
    } else if n == 2 {
        let a: char = word.get_char(0);
        let b: char = word.get_char(1);
        if a == '&' && b == '&' {
            proof {
                assert(word@ =~= seq!['&', '&']);
            }
            return Some(Element::And);
        }
        if a == '|' && b == '|' {
            proof {
                assert(word@ =~= seq!['|', '|']);
            }
            return Some(Element::Or);
        }
    }
    None
}

/// Whether a word spells an operator.
pub fn is_operator_word(word: &str) -> (r: bool)
    ensures
        r == operator_of(word@) is Some,
{
    parse_operator(word).is_some()
}

/// A cursor over the words of one segment.
pub struct Parser {
    tokens: Vec<String>,
    current: usize,
}

impl Parser {
    #[verifier::type_invariant]
    spec fn inv(&self) -> bool {
        self.current <= self.tokens@.len()
    }

    /// The words that are still to be read.
    pub closed spec fn remaining(&self) -> Seq<Seq<char>> {
        texts(self.tokens@).skip(self.current as int)
    }

    /// A parser over the words of `segment`.
    pub fn new(segment: &str) -> (p: Parser)
        ensures
            p.remaining() == words(segment@),
    {
        Parser::from_tokens(split_words(segment))
    }

    /// A parser over `tokens`.
    pub fn from_tokens(tokens: Vec<String>) -> (p: Parser)
        ensures
            p.remaining() == texts(tokens@),
    {
        Parser { tokens, current: 0 }
    }

    /// Reads the command whose name is `binary`, taking every word up to the
    /// next operator as an argument.
    pub fn parse_cmd(&mut self, binary: String) -> (c: Command)
        ensures
            c@.binary == binary@,
            c@.args == old(self).remaining().take(args_len(old(self).remaining()) as int),
            final(self).remaining() == old(self).remaining().skip(
                args_len(old(self).remaining()) as int,
            ),
    {
        proof {
            use_type_invariant(&*self);
            lemma_args_len_bounds(self.remaining());
        }
        let ghost rem = self.remaining();
        let ghost start = self.current;
        let mut args: Vec<String> = Vec::new();
        let n: usize = self.tokens.len();
        let mut i: usize = self.current;
        proof {
            assert(rem.skip(0) =~= rem);
        }
        while i < n && !is_operator_word(self.tokens[i].as_str())
            invariant
                start <= i <= n,
                n == self.tokens@.len(),
                self.current == start,
                rem == texts(self.tokens@).skip(start as int),
                args_len(rem) == (i - start) + args_len(rem.skip(i - start)),
                texts(args@) == rem.take(i - start),
            decreases n - i,
        {
            proof {
                assert(rem.skip(i - start).skip(1) =~= rem.skip(i - start + 1));
            }
            args.push(self.tokens[i].clone());
            proof {
                assert(rem.take(i - start + 1) =~= rem.take(i - start).push(rem[i - start]));
            }
            i += 1;
        }
        self.current = i;
        Command { binary, args }
    }

    /// Reads the next element, if a word is left.
    pub fn parse_next(&mut self) -> (r: Option<Element>)
        ensures
            match r {
                None => old(self).remaining().len() == 0 && final(self).remaining() == old(
                    self,
                ).remaining(),
                Some(e) => {
                    &&& old(self).remaining().len() > 0
                    &&& e@ == first_element(old(self).remaining())
                    &&& first_len(old(self).remaining()) <= old(self).remaining().len()
                    &&& final(self).remaining() == old(self).remaining().skip(
                        first_len(old(self).remaining()) as int,
                    )
                },
            },
    {
        proof {
            use_type_invariant(&*self);
        }
        let ghost rem = self.remaining();
        if self.current >= self.tokens.len() {
            return None;
        }
        let word: String = self.tokens[self.current].clone();
        proof {
            assert(rem.skip(1) =~= texts(self.tokens@).skip(self.current + 1));
            lemma_args_len_bounds(rem.skip(1));
        }
        self.current += 1;
        match parse_operator(word.as_str()) {
            Some(op) => Some(op),
            None => {
                let c = self.parse_cmd(word);
                proof {
                    let k = args_len(rem.skip(1)) as int;
                    assert(rem.skip(1).take(k) =~= rem.subrange(1, 1 + k));
                }
                Some(Element::Command(c))
            },
        }
    }

    /// Reads every element that is left and makes a chain of them.
    pub fn parse(self) -> (r: Result<Option<Chain>, ParseError>)
        ensures
            match r {
                Ok(None) => parsed(self.remaining()) == Ok::<
                    Option<Seq<ElementView>>,
                    ParseError,
                >(None),
                Ok(Some(chain)) => parsed(self.remaining()) == Ok::<
                    Option<Seq<ElementView>>,
                    ParseError,
                >(Some(chain@)),
                Err(e) => parsed(self.remaining()) == Err::<Option<Seq<ElementView>>, ParseError>(
                    e,
                ),
            },
    {
        let ghost all = self.remaining();
        let mut parser = self;
        let mut elements: Vec<Element> = Vec::new();
        let mut done: bool = false;
        while !done
            invariant
                elements_of(all) == element_views(elements@) + elements_of(parser.remaining()),
                (all.len() == 0) == (elements@.len() == 0 && parser.remaining().len() == 0),
                done ==> parser.remaining().len() == 0,
            decreases parser.remaining().len() + (if done { 0nat } else { 1nat }),
        {
            match parser.parse_next() {
                Some(e) => {
                    elements.push(e);
                },
                None => {
                    done = true;
                },
            }
        }
        if elements.len() == 0 {
            return Ok(None);
        }
        match Chain::new(elements) {
            Ok(chain) => Ok(Some(chain)),
            Err(e) => Err(e),
        }
    }
}

/// Parses `tokens` and appends what they give to `out`: nothing where
/// there is no word, else the chain or the error.
pub fn emit(tokens: Vec<String>, out: &mut Vec<Result<Chain, ParseError>>)
    ensures
        result_views(final(out)@) == result_views(old(out)@) + emitted(texts(tokens@)),
{
    match Parser::from_tokens(tokens).parse() {
        Ok(None) => {
        },
        Ok(Some(chain)) => {
            out.push(Ok(chain));
        },
        Err(e) => {
            out.push(Err(e));
        },
    }
}

/// Parses each segment of a line.  A segment without a word gives nothing;
/// a malformed one gives its error and does not stop the others.
pub fn chains_from_line(line: &str) -> (out: Vec<Result<Chain, ParseError>>)
    ensures
        result_views(out@) == line_chains(line@),
{
    let segs: Vec<String> = split_segments(line);
    let mut out: Vec<Result<Chain, ParseError>> = Vec::new();
    let mut i: usize = 0;
    proof {
        assert(texts(segs@).skip(0) =~= texts(segs@));
    }
    while i < segs.len()
        invariant
            i <= segs@.len(),
            texts(segs@) == segments(line@),
            line_chains(line@) == result_views(out@) + chains_of(texts(segs@).skip(i as int)),
        decreases segs@.len() - i,
    {
        let ghost rest = texts(segs@).skip(i as int);
        proof {
            assert(rest.skip(1) =~= texts(segs@).skip(i + 1));
        }
        let tokens: Vec<String> = split_words(segs[i].as_str());
        emit(tokens, &mut out);
        i += 1;
    }
    out
}

} // verus!
