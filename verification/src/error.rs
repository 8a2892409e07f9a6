use vstd::prelude::*;

verus! {

/// Why a compilation stopped.
#[derive(Debug, PartialEq)]
pub enum CompileError {
    /// The source text is not a program; the payload is the character
    /// position at which reading stopped.
    Parse(usize),
    /// A variable is used outside the scope of any binder of that name.
    UnboundIdentifier(String),
    /// A body ends in a definition, not in an expression.
    IllFormedBody,
    /// A builtin identifier names no runtime primitive.
    UnknownBuiltin(String),
    /// A literal has no counterpart in the emitted code.
    UnsupportedLiteral,
    /// The supply of fresh names ran out.
    NamesExhausted,
}

/// The mathematical value of a [`CompileError`].
pub enum CompileErrorView {
    Parse(nat),
    UnboundIdentifier(Seq<char>),
    IllFormedBody,
    UnknownBuiltin(Seq<char>),
    UnsupportedLiteral,
    NamesExhausted,
}

impl View for CompileError {
    type V = CompileErrorView;

    open spec fn view(&self) -> CompileErrorView {
        match self {
            CompileError::Parse(at) => CompileErrorView::Parse(*at as nat),
            CompileError::UnboundIdentifier(n) => CompileErrorView::UnboundIdentifier(n@),
            CompileError::IllFormedBody => CompileErrorView::IllFormedBody,
            CompileError::UnknownBuiltin(n) => CompileErrorView::UnknownBuiltin(n@),
            CompileError::UnsupportedLiteral => CompileErrorView::UnsupportedLiteral,
            CompileError::NamesExhausted => CompileErrorView::NamesExhausted,
        }
    }
}


/// The diagnostic that tells the user of the error `e`.
pub open spec fn message_text(e: CompileErrorView) -> Seq<char> {
    match e {
        CompileErrorView::Parse(at) => "parse error at character "@ + crate::utils::decimal(at),
        CompileErrorView::UnboundIdentifier(n) => "unbound identifier: "@ + n,
        CompileErrorView::IllFormedBody => "ill-formed body: a body must end in an expression"@,
        CompileErrorView::UnknownBuiltin(n) => "unknown builtin: "@ + n,
        CompileErrorView::UnsupportedLiteral => "unsupported literal"@,
        CompileErrorView::NamesExhausted => "the supply of fresh names is exhausted"@,
    }
}

impl CompileError {
    /// The diagnostic that tells the user of this error.
    pub fn message(&self) -> (text: String)
        ensures
            text@ == message_text(self@),
    {
        match self {
            CompileError::Parse(at) => {
                let mut text = String::from_str("parse error at character ");
                crate::utils::push_decimal(&mut text, *at as u64);
                text
            },
            CompileError::UnboundIdentifier(n) => {
                let mut text = String::from_str("unbound identifier: ");
                text.append(n.as_str());
                text
            },
            CompileError::IllFormedBody => String::from_str(
                "ill-formed body: a body must end in an expression",
            ),
            CompileError::UnknownBuiltin(n) => {
                let mut text = String::from_str("unknown builtin: ");
                text.append(n.as_str());
                text
            },
            CompileError::UnsupportedLiteral => String::from_str("unsupported literal"),
            CompileError::NamesExhausted => String::from_str(
                "the supply of fresh names is exhausted",
            ),
        }
    }
}

} // verus!
