//! The errors and warnings of the semantic analysis, each with the position it refers
//! to and the descriptions of the symbols involved.
use vstd::prelude::*;

verus! {

/// An error or warning found while building or checking the symbol tables.
#[derive(Debug)]
pub enum SemanticError {
    /// A symbol (third field) is defined again where another (fourth field) exists.
    Redefinition(usize, usize, String, String),
    /// A function identifier is overloaded.
    Overload(usize, usize, String),
    /// An array dimension of the named variable is left unspecified.
    MissingDimension(usize, usize, String),
    /// The described class inherits, directly or not, from itself.
    CyclicInheritance(usize, usize, String),
    /// The described symbol (third field) is used where the fourth field is expected.
    IncorrectType(usize, usize, String, String),
    /// A type name names nothing.
    UndefinedType(usize, usize, String),
    /// The named member function is declared but never defined.
    DeclaredButNotDefined(usize, usize, String),
    /// The described member function overrides an inherited one.
    Override(usize, usize, String),
    /// The described member (third field) shadows an inherited one (fourth field).
    Shadowing(usize, usize, String, String),
    /// The operands of a binary operator have different types (third and fourth field).
    BinaryType(usize, usize, String, String),
    /// A call passes a number of arguments (third field) other than the number of
    /// parameters (fourth field).
    IncorrectNumberArguments(usize, usize, usize, usize),
    /// An array is indexed with a number of indices (third field) other than its number
    /// of dimensions (fourth field).
    InvalidArrayDimension(usize, usize, usize, usize),
    /// An identifier names nothing.
    UndefinedIdentifier(usize, usize, String),
    /// No overload of the function (third field) takes arguments of the listed types
    /// (fourth field).
    NoOverload(usize, usize, String, String),
    /// A relational operator is applied to values of a type that is no number.
    InvalidRelop(usize, usize, String),
    /// An array index has a type (third field) other than integer.
    InvalidArrayIndex(usize, usize, String),
}

/// Mathematical model of a [`SemanticError`].
pub enum SpecSemanticError {
    Redefinition(usize, usize, Seq<char>, Seq<char>),
    Overload(usize, usize, Seq<char>),
    MissingDimension(usize, usize, Seq<char>),
    CyclicInheritance(usize, usize, Seq<char>),
    IncorrectType(usize, usize, Seq<char>, Seq<char>),
    UndefinedType(usize, usize, Seq<char>),
    DeclaredButNotDefined(usize, usize, Seq<char>),
    Override(usize, usize, Seq<char>),
    Shadowing(usize, usize, Seq<char>, Seq<char>),
    BinaryType(usize, usize, Seq<char>, Seq<char>),
    IncorrectNumberArguments(usize, usize, usize, usize),
    InvalidArrayDimension(usize, usize, usize, usize),
    UndefinedIdentifier(usize, usize, Seq<char>),
    NoOverload(usize, usize, Seq<char>, Seq<char>),
    InvalidRelop(usize, usize, Seq<char>),
    InvalidArrayIndex(usize, usize, Seq<char>),
}

impl View for SemanticError {
    type V = SpecSemanticError;

    open spec fn view(&self) -> SpecSemanticError {
        match self {
            SemanticError::Redefinition(l, c, a, b) => SpecSemanticError::Redefinition(*l, *c, a@, b@),
            SemanticError::Overload(l, c, a) => SpecSemanticError::Overload(*l, *c, a@),
            SemanticError::MissingDimension(l, c, a) => SpecSemanticError::MissingDimension(*l, *c, a@),
            SemanticError::CyclicInheritance(l, c, a) => SpecSemanticError::CyclicInheritance(*l, *c, a@),
            SemanticError::IncorrectType(l, c, a, b) => SpecSemanticError::IncorrectType(*l, *c, a@, b@),
            SemanticError::UndefinedType(l, c, a) => SpecSemanticError::UndefinedType(*l, *c, a@),
            SemanticError::DeclaredButNotDefined(l, c, a) => SpecSemanticError::DeclaredButNotDefined(*l, *c, a@),
            SemanticError::Override(l, c, a) => SpecSemanticError::Override(*l, *c, a@),
            SemanticError::Shadowing(l, c, a, b) => SpecSemanticError::Shadowing(*l, *c, a@, b@),
            SemanticError::BinaryType(l, c, a, b) => SpecSemanticError::BinaryType(*l, *c, a@, b@),
            SemanticError::IncorrectNumberArguments(l, c, a, b) => SpecSemanticError::IncorrectNumberArguments(
                *l,
                *c,
                *a,
                *b,
            ),
            SemanticError::InvalidArrayDimension(l, c, a, b) => SpecSemanticError::InvalidArrayDimension(*l, *c, *a, *b),
            SemanticError::UndefinedIdentifier(l, c, a) => SpecSemanticError::UndefinedIdentifier(*l, *c, a@),
            SemanticError::NoOverload(l, c, a, b) => SpecSemanticError::NoOverload(*l, *c, a@, b@),
            SemanticError::InvalidRelop(l, c, a) => SpecSemanticError::InvalidRelop(*l, *c, a@),
            SemanticError::InvalidArrayIndex(l, c, a) => SpecSemanticError::InvalidArrayIndex(*l, *c, a@),
        }
    }
}

/// The models of a list of errors.
pub open spec fn views(v: Seq<SemanticError>) -> Seq<SpecSemanticError> {
    Seq::new(v.len(), |i: int| v[i]@)
}

/// The line that an error refers to.
pub open spec fn error_line(e: SpecSemanticError) -> usize {
    match e {
        SpecSemanticError::Redefinition(l, _, _, _) => l,
        SpecSemanticError::Overload(l, _, _) => l,
        SpecSemanticError::MissingDimension(l, _, _) => l,
        SpecSemanticError::CyclicInheritance(l, _, _) => l,
        SpecSemanticError::IncorrectType(l, _, _, _) => l,
        SpecSemanticError::UndefinedType(l, _, _) => l,
        SpecSemanticError::DeclaredButNotDefined(l, _, _) => l,
        SpecSemanticError::Override(l, _, _) => l,
        SpecSemanticError::Shadowing(l, _, _, _) => l,
        SpecSemanticError::BinaryType(l, _, _, _) => l,
        SpecSemanticError::IncorrectNumberArguments(l, _, _, _) => l,
        SpecSemanticError::InvalidArrayDimension(l, _, _, _) => l,
        SpecSemanticError::UndefinedIdentifier(l, _, _) => l,
        SpecSemanticError::NoOverload(l, _, _, _) => l,
        SpecSemanticError::InvalidRelop(l, _, _) => l,
        SpecSemanticError::InvalidArrayIndex(l, _, _) => l,
    }
}

/// The column that an error refers to.
pub open spec fn error_column(e: SpecSemanticError) -> usize {
    match e {
        SpecSemanticError::Redefinition(_, c, _, _) => c,
        SpecSemanticError::Overload(_, c, _) => c,
        SpecSemanticError::MissingDimension(_, c, _) => c,
        SpecSemanticError::CyclicInheritance(_, c, _) => c,
        SpecSemanticError::IncorrectType(_, c, _, _) => c,
        SpecSemanticError::UndefinedType(_, c, _) => c,
        SpecSemanticError::DeclaredButNotDefined(_, c, _) => c,
        SpecSemanticError::Override(_, c, _) => c,
        SpecSemanticError::Shadowing(_, c, _, _) => c,
        SpecSemanticError::BinaryType(_, c, _, _) => c,
        SpecSemanticError::IncorrectNumberArguments(_, c, _, _) => c,
        SpecSemanticError::InvalidArrayDimension(_, c, _, _) => c,
        SpecSemanticError::UndefinedIdentifier(_, c, _) => c,
        SpecSemanticError::NoOverload(_, c, _, _) => c,
        SpecSemanticError::InvalidRelop(_, c, _) => c,
        SpecSemanticError::InvalidArrayIndex(_, c, _) => c,
    }
}

/// Appends the errors of `more` to `errors`.
pub fn append_errors(errors: &mut Vec<SemanticError>, more: Vec<SemanticError>)
    ensures
        views(final(errors)@) == views(old(errors)@) + views(more@),
{
    let ghost added = more@;
    let mut more = more;
    errors.append(&mut more);
    assert(views(errors@) =~= views(old(errors)@) + views(added));
}

impl SemanticError {
    /// The line that the error refers to.
    pub fn line(&self) -> (r: usize)
        ensures
            r == error_line(self@),
    {
        match self {
            SemanticError::Redefinition(l, _, _, _) => *l,
            SemanticError::Overload(l, _, _) => *l,
            SemanticError::MissingDimension(l, _, _) => *l,
            SemanticError::CyclicInheritance(l, _, _) => *l,
            SemanticError::IncorrectType(l, _, _, _) => *l,
            SemanticError::UndefinedType(l, _, _) => *l,
            SemanticError::DeclaredButNotDefined(l, _, _) => *l,
            SemanticError::Override(l, _, _) => *l,
            SemanticError::Shadowing(l, _, _, _) => *l,
            SemanticError::BinaryType(l, _, _, _) => *l,
            SemanticError::IncorrectNumberArguments(l, _, _, _) => *l,
            SemanticError::InvalidArrayDimension(l, _, _, _) => *l,
            SemanticError::UndefinedIdentifier(l, _, _) => *l,
            SemanticError::NoOverload(l, _, _, _) => *l,
            SemanticError::InvalidRelop(l, _, _) => *l,
            SemanticError::InvalidArrayIndex(l, _, _) => *l,
        }
    }

    /// The column that the error refers to.
    pub fn col(&self) -> (r: usize)
        ensures
            r == error_column(self@),
    {
        match self {
            SemanticError::Redefinition(_, c, _, _) => *c,
            SemanticError::Overload(_, c, _) => *c,
            SemanticError::MissingDimension(_, c, _) => *c,
            SemanticError::CyclicInheritance(_, c, _) => *c,
            SemanticError::IncorrectType(_, c, _, _) => *c,
            SemanticError::UndefinedType(_, c, _) => *c,
            SemanticError::DeclaredButNotDefined(_, c, _) => *c,
            SemanticError::Override(_, c, _) => *c,
            SemanticError::Shadowing(_, c, _, _) => *c,
            SemanticError::BinaryType(_, c, _, _) => *c,
            SemanticError::IncorrectNumberArguments(_, c, _, _) => *c,
            SemanticError::InvalidArrayDimension(_, c, _, _) => *c,
            SemanticError::UndefinedIdentifier(_, c, _) => *c,
            SemanticError::NoOverload(_, c, _, _) => *c,
            SemanticError::InvalidRelop(_, c, _) => *c,
            SemanticError::InvalidArrayIndex(_, c, _) => *c,
        }
    }
}

} // verus!
