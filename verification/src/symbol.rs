//! Grammar symbols: terminals, non terminals, embedded semantic actions,
//! the empty sentence and the end of the token stream.
use vstd::prelude::*;
use vstd::std_specs::cmp::PartialEqSpecImpl;

verus! {

/// A semantic action embedded in the right-hand side of a production.
#[derive(Debug, Hash)]
pub enum Action {
    /// Create a node of a data type (first field) named by the second field.
    Create(String, String),
    /// Group a number of nodes under a new node with the given name.
    Group(String, usize),
    /// Append the top node to the sibling list beneath it.
    MakeSibling,
}

/// A symbol of a grammar.
#[derive(Debug, Hash)]
pub enum Symbol {
    Terminal(String),
    NonTerminal(String),
    SemanticAction(Action),
    Epsilon,
    Eos,
}

/// Mathematical model of an [`Action`].
pub enum SpecAction {
    Create(Seq<char>, Seq<char>),
    Group(Seq<char>, usize),
    MakeSibling,
}

/// Mathematical model of a [`Symbol`].
pub enum SpecSymbol {
    Terminal(Seq<char>),
    NonTerminal(Seq<char>),
    SemanticAction(SpecAction),
    Epsilon,
    Eos,
}

impl View for Action {
    type V = SpecAction;

    open spec fn view(&self) -> SpecAction {
        match self {
            Action::Create(t, n) => SpecAction::Create(t@, n@),
            Action::Group(n, c) => SpecAction::Group(n@, *c),
            Action::MakeSibling => SpecAction::MakeSibling,
        }
    }
}

impl View for Symbol {
    type V = SpecSymbol;

    open spec fn view(&self) -> SpecSymbol {
        match self {
            Symbol::Terminal(s) => SpecSymbol::Terminal(s@),
            Symbol::NonTerminal(s) => SpecSymbol::NonTerminal(s@),
            Symbol::SemanticAction(a) => SpecSymbol::SemanticAction(a@),
            Symbol::Epsilon => SpecSymbol::Epsilon,
            Symbol::Eos => SpecSymbol::Eos,
        }
    }
}

impl DeepView for Symbol {
    type V = SpecSymbol;

    open spec fn deep_view(&self) -> SpecSymbol {
        self@
    }
}

impl Clone for Action {
    fn clone(&self) -> (r: Self)
        ensures
            r@ == self@,
    {
        match self {
            Action::Create(t, n) => Action::Create(t.clone(), n.clone()),
            Action::Group(n, c) => Action::Group(n.clone(), *c),
            Action::MakeSibling => Action::MakeSibling,
        }
    }
}

impl Clone for Symbol {
    fn clone(&self) -> (r: Self)
        ensures
            r@ == self@,
    {
        match self {
            Symbol::Terminal(s) => Symbol::Terminal(s.clone()),
            Symbol::NonTerminal(s) => Symbol::NonTerminal(s.clone()),
            Symbol::SemanticAction(a) => Symbol::SemanticAction(a.clone()),
            Symbol::Epsilon => Symbol::Epsilon,
            Symbol::Eos => Symbol::Eos,
        }
    }
}

impl PartialEq for Action {
    fn eq(&self, other: &Self) -> (r: bool) {
        match (self, other) {
            (Action::Create(t1, n1), Action::Create(t2, n2)) => *t1 == *t2 && *n1 == *n2,
            (Action::Group(n1, c1), Action::Group(n2, c2)) => *n1 == *n2 && *c1 == *c2,
            (Action::MakeSibling, Action::MakeSibling) => true,
            _ => false,
        }
    }
}

impl PartialEqSpecImpl for Action {
    open spec fn obeys_eq_spec() -> bool {
        true
    }

    open spec fn eq_spec(&self, other: &Self) -> bool {
        self@ == other@
    }
}

impl Eq for Action {}

impl PartialEq for Symbol {
    fn eq(&self, other: &Self) -> (r: bool) {
        match (self, other) {
            (Symbol::Terminal(a), Symbol::Terminal(b)) => *a == *b,
            (Symbol::NonTerminal(a), Symbol::NonTerminal(b)) => *a == *b,
            (Symbol::SemanticAction(a), Symbol::SemanticAction(b)) => *a == *b,
            (Symbol::Epsilon, Symbol::Epsilon) => true,
            (Symbol::Eos, Symbol::Eos) => true,
            _ => false,
        }
    }
}

impl PartialEqSpecImpl for Symbol {
    open spec fn obeys_eq_spec() -> bool {
        true
    }

    open spec fn eq_spec(&self, other: &Self) -> bool {
        self@ == other@
    }
}

impl Eq for Symbol {}

impl Symbol {
    /// Whether the symbol is a semantic action.
    pub fn is_action(&self) -> (r: bool)
        ensures
            r == (self@ is SemanticAction),
    {
        matches!(self, Symbol::SemanticAction(_))
    }

    /// Whether the symbol is a non terminal.
    pub fn is_non_terminal(&self) -> (r: bool)
        ensures
            r == (self@ is NonTerminal),
    {
        matches!(self, Symbol::NonTerminal(_))
    }

    /// Whether the symbol is a terminal or the end of the stream.
    pub fn is_terminal_or_eos(&self) -> (r: bool)
        ensures
            r == (self@ is Terminal || self@ is Eos),
    {
        matches!(self, Symbol::Terminal(_) | Symbol::Eos)
    }

    /// Whether the symbol is the empty sentence.
    pub fn is_epsilon(&self) -> (r: bool)
        ensures
            r == (self@ is Epsilon),
    {
        matches!(self, Symbol::Epsilon)
    }

    /// The terminal that a token's lexeme stands for; `None` (no token left) is the end of the stream.
    pub fn from_token(lexeme: Option<&String>) -> (r: Symbol)
        ensures
            match lexeme {
                Some(l) => r@ == SpecSymbol::Terminal(l@),
                None => r@ == SpecSymbol::Eos,
            },
    {
        match lexeme {
            Some(l) => Symbol::Terminal(l.clone()),
            None => Symbol::Eos,
        }
    }
}

} // verus!
