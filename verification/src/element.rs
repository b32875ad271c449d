//! The elements of a chain, and the chain itself.
use vstd::prelude::*;
use crate::tokenizer::texts;

verus! {

/// One program to invoke, with its arguments.
#[derive(Debug, PartialEq, Eq)]
pub struct Command {
    pub binary: String,
    pub args: Vec<String>,
}

/// What a [`Command`] holds, as plain text.
pub struct CommandView {
    pub binary: Seq<char>,
    pub args: Seq<Seq<char>>,
}

impl View for Command {
    type V = CommandView;

    open spec fn view(&self) -> CommandView {
        CommandView { binary: self.binary@, args: texts(self.args@) }
    }
}

impl Clone for Command {
    fn clone(&self) -> (r: Self)
        ensures
            r@ == self@,
    {
        let mut args: Vec<String> = Vec::new();
        let mut i: usize = 0;
        while i < self.args.len()
            invariant
                i <= self.args.len(),
                args@.len() == i,
                forall|k: int| 0 <= k < i ==> args@[k]@ == self.args@[k]@,
            decreases self.args.len() - i,
        {
            args.push(self.args[i].clone());
            i += 1;
        }
        proof {
            assert(texts(args@) =~= texts(self.args@));
        }
        Command { binary: self.binary.clone(), args }
    }
}

/// A control operator, a pipe, or a command.
#[derive(Debug, PartialEq, Eq)]
pub enum Element {
    /// `&&`
    And,
    /// `||`
    Or,
    /// `|`
    Pipe,
    /// A command with its arguments.
    Command(Command),
}

/// What an [`Element`] holds, as plain text.
pub enum ElementView {
    And,
    Or,
    Pipe,
    Command(CommandView),
}

impl View for Element {
    type V = ElementView;

    open spec fn view(&self) -> ElementView {
        match self {
            Element::And => ElementView::And,
            Element::Or => ElementView::Or,
            Element::Pipe => ElementView::Pipe,
            Element::Command(c) => ElementView::Command(c@),
        }
    }
}

impl Clone for Element {
    fn clone(&self) -> (r: Self)
        ensures
            r@ == self@,
    {
        match self {
            Element::And => Element::And,
            Element::Or => Element::Or,
            Element::Pipe => Element::Pipe,
            Element::Command(c) => Element::Command(c.clone()),
        }
    }
}

impl Element {
    /// Whether this element is `&&`, `||` or `|`.
    pub fn is_operator(&self) -> (r: bool)
        ensures
            r == is_operator(self@),
    {
        match self {
            Element::Command(_) => false,
            _ => true,
        }
    }
}

/// The views of a sequence of elements, in order.
pub open spec fn element_views(v: Seq<Element>) -> Seq<ElementView> {
    Seq::new(v.len(), |i: int| v[i]@)
}

/// Whether `e` is `&&`, `||` or `|`.
pub open spec fn is_operator(e: ElementView) -> bool {
    !(e is Command)
}

/// Why a sequence of elements is no chain.
#[derive(Debug, Clone, Copy, PartialEq, Eq, Structural)]
pub enum ParseError {
    /// There is no element at all.
    Empty,
    /// The first element is an operator.
    LeadingOperator,
    /// Two operators stand side by side.
    AdjacentOperators,
    /// The last element is an operator.
    TrailingOperator,
}

/// What is said of a parse error where it is reported.
pub open spec fn parse_error_text(e: ParseError) -> Seq<char> {
    match e {
        ParseError::Empty => "malformed chain: no command"@,
        ParseError::LeadingOperator => "malformed chain: operator without a command before it"@,
        ParseError::AdjacentOperators => "malformed chain: two operators side by side"@,
        ParseError::TrailingOperator => "malformed chain: operator without a command after it"@,
    }
}

impl ParseError {
    /// The text to report this error with.
    pub fn message(&self) -> (r: String)
        ensures
            r@ == parse_error_text(*self),
    {
        match self {
            ParseError::Empty => "malformed chain: no command".to_owned(),
            ParseError::LeadingOperator => "malformed chain: operator without a command before it".to_owned(),
            ParseError::AdjacentOperators => "malformed chain: two operators side by side".to_owned(),
            ParseError::TrailingOperator => "malformed chain: operator without a command after it".to_owned(),
        }
    }
}

/// Whether two operators stand side by side somewhere in `e`.
pub open spec fn has_adjacent_operators(e: Seq<ElementView>) -> bool {
    exists|i: int| 0 <= i < e.len() - 1 && is_operator(#[trigger] e[i]) && is_operator(e[i + 1])
}

/// The reason why `e` is no chain, if there is one.  Where several hold, the
/// first of empty, leading, adjacent, trailing is given.
pub open spec fn fault(e: Seq<ElementView>) -> Option<ParseError> {
    if e.len() == 0 {
        Some(ParseError::Empty)
    } else if is_operator(e[0]) {
        Some(ParseError::LeadingOperator)
    } else if has_adjacent_operators(e) {
        Some(ParseError::AdjacentOperators)
    } else if is_operator(e.last()) {
        Some(ParseError::TrailingOperator)
    } else {
        None
    }
}

/// A chain is not empty, neither begins nor ends with an operator, and holds
/// no two operators side by side.
pub open spec fn well_formed(e: Seq<ElementView>) -> bool {
    &&& e.len() > 0
    &&& !is_operator(e[0])
    &&& !is_operator(e.last())
    &&& forall|i: int| 0 <= i < e.len() - 1 ==> !(is_operator(#[trigger] e[i]) && is_operator(e[i + 1]))
}

/// A sequence of elements has no fault exactly when it is well formed.
pub proof fn lemma_fault_none_iff_well_formed(e: Seq<ElementView>)
    ensures
        fault(e) is None <==> well_formed(e),
{
}

/// Finds the fault of a sequence of elements.
pub fn check_elements(elements: &Vec<Element>) -> (r: Option<ParseError>)
    ensures
        r == fault(element_views(elements@)),
{
    let ghost e = element_views(elements@);
    let n: usize = elements.len();
    if n == 0 {
        return Some(ParseError::Empty);
    }
    if elements[0].is_operator() {
        return Some(ParseError::LeadingOperator);
    }
    let mut i: usize = 0;
    while i + 1 < n
        invariant
            n == elements@.len(),
            e == element_views(elements@),
            i < n,
            !is_operator(e[0]),
            !is_operator(e[i as int]),
            forall|k: int| 0 <= k < i ==> !(is_operator(#[trigger] e[k]) && is_operator(e[k + 1])),
        decreases n - i,
    {
        if elements[i + 1].is_operator() {
            if i + 2 < n && elements[i + 2].is_operator() {
                proof {
                    assert(is_operator(e[i + 1]) && is_operator(e[i + 1 + 1]));
                }
                return Some(ParseError::AdjacentOperators);
            }
            if i + 2 >= n {
                return Some(ParseError::TrailingOperator);
            }
            i += 2;
        } else {
            i += 1;
        }
    }
    None
}

/// The elements of one `;`-delimited segment.
#[derive(Debug, PartialEq, Eq)]
pub struct Chain {
    elements: Vec<Element>,
}

impl View for Chain {
    type V = Seq<ElementView>;

    closed spec fn view(&self) -> Seq<ElementView> {
        element_views(self.elements@)
    }
}

impl Chain {
    #[verifier::type_invariant]
    spec fn inv(&self) -> bool {
        well_formed(element_views(self.elements@))
    }

    /// Makes a chain of `elements`, or says why they form none.
    pub fn new(elements: Vec<Element>) -> (r: Result<Chain, ParseError>)
        ensures
            match r {
                Ok(chain) => fault(element_views(elements@)) is None && chain@ == element_views(
                    elements@,
                ),
                Err(e) => fault(element_views(elements@)) == Some(e),
            },
    {
        match check_elements(&elements) {
            Some(e) => Err(e),
            None => Ok(Chain { elements }),
        }
    }

    /// The elements, in order.
    pub fn elements(&self) -> (r: &Vec<Element>)
        ensures
            element_views(r@) == self@,
            well_formed(self@),
    {
        proof {
            use_type_invariant(self);
        }
        &self.elements
    }

    /// The number of elements.
    pub fn len(&self) -> (r: usize)
        ensures
            r == self@.len(),
            r > 0,
    {
        proof {
            use_type_invariant(self);
        }
        self.elements.len()
    }
}

} // verus!
