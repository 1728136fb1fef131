use vstd::prelude::*;

verus! {

/// The kind of a failure, as contracts speak of it.
pub enum Fault {
    UnexpectedEndOfInput,
    UnmatchedCloseParen,
    TrailingTokens,
    UndefinedSymbol(Seq<char>),
    EmptyList,
    NotAList,
    DivisionByZero,
    ArityError,
    ExpectedSymbol,
    UnsupportedForm,
    TypeMismatch,
    Overflow,
}

/// Why reading or evaluating a program failed.
#[derive(Debug)]
pub enum Error {
    /// A token was needed and the input had ended.
    UnexpectedEndOfInput,
    /// A `)` stood where an expression was expected.
    UnmatchedCloseParen,
    /// Tokens were left over after a whole expression.
    TrailingTokens,
    /// A symbol had no integer bound to it.
    UndefinedSymbol(String),
    /// An empty list was evaluated, or taken apart.
    EmptyList,
    /// A list was expected.
    NotAList,
    /// A divisor was zero.
    DivisionByZero,
    /// A form had the wrong number of arguments.
    ArityError,
    /// `let` was given something other than a symbol to bind.
    ExpectedSymbol,
    /// A list did not start with a known operator, or a pair was evaluated.
    UnsupportedForm,
    /// An argument had the wrong kind of value.
    TypeMismatch,
    /// An integer result did not fit in 32 bits.
    Overflow,
}

impl View for Error {
    type V = Fault;

    open spec fn view(&self) -> Fault {
        match self {
            Error::UnexpectedEndOfInput => Fault::UnexpectedEndOfInput,
            Error::UnmatchedCloseParen => Fault::UnmatchedCloseParen,
            Error::TrailingTokens => Fault::TrailingTokens,
            Error::UndefinedSymbol(s) => Fault::UndefinedSymbol(s@),
            Error::EmptyList => Fault::EmptyList,
            Error::NotAList => Fault::NotAList,
            Error::DivisionByZero => Fault::DivisionByZero,
            Error::ArityError => Fault::ArityError,
            Error::ExpectedSymbol => Fault::ExpectedSymbol,
            Error::UnsupportedForm => Fault::UnsupportedForm,
            Error::TypeMismatch => Fault::TypeMismatch,
            Error::Overflow => Fault::Overflow,
        }
    }
}

/// The text that describes a failure.
pub open spec fn fault_message(f: Fault) -> Seq<char> {
    match f {
        Fault::UnexpectedEndOfInput => "Unexpected end of input"@,
        Fault::UnmatchedCloseParen => "Unexpected ')'"@,
        Fault::TrailingTokens => "Unexpected trailing tokens"@,
        Fault::UndefinedSymbol(s) => "Undefined symbol '"@ + s + "'"@,
        Fault::EmptyList => "Empty list"@,
        Fault::NotAList => "Not a list"@,
        Fault::DivisionByZero => "Division by zero"@,
        Fault::ArityError => "Wrong number of arguments"@,
        Fault::ExpectedSymbol => "Expected a symbol as first argument"@,
        Fault::UnsupportedForm => "Unexpected function or syntax"@,
        Fault::TypeMismatch => "Unexpected argument"@,
        Fault::Overflow => "Integer overflow"@,
    }
}

impl Error {
    /// A human-readable description of the failure.
    pub fn message(&self) -> (r: String)
        ensures
            r@ == fault_message(self@),
    {
        match self {
            Error::UnexpectedEndOfInput => String::from_str("Unexpected end of input"),
            Error::UnmatchedCloseParen => String::from_str("Unexpected ')'"),
            Error::TrailingTokens => String::from_str("Unexpected trailing tokens"),
            Error::UndefinedSymbol(s) => {
                let mut r = String::from_str("Undefined symbol '");
                r.append(s.as_str());
                r.append("'");
                r
            },
            Error::EmptyList => String::from_str("Empty list"),
            Error::NotAList => String::from_str("Not a list"),
            Error::DivisionByZero => String::from_str("Division by zero"),
            Error::ArityError => String::from_str("Wrong number of arguments"),
            Error::ExpectedSymbol => String::from_str("Expected a symbol as first argument"),
            Error::UnsupportedForm => String::from_str("Unexpected function or syntax"),
            Error::TypeMismatch => String::from_str("Unexpected argument"),
            Error::Overflow => String::from_str("Integer overflow"),
        }
    }
}

} // verus!
