use vstd::prelude::*;

verus! {

/// A literal value of the source language.
///
/// A floating-point literal is held as the bit pattern of its 64-bit IEEE 754
/// value, so that two literals are equal exactly when their bits are.
#[derive(Debug, PartialEq)]
pub enum Literal {
    String(String),
    Int(i64),
    Float(u64),
    Void,
}

/// The mathematical value of a [`Literal`].
pub enum LiteralView {
    String(Seq<char>),
    Int(int),
    Float(u64),
    Void,
}

impl View for Literal {
    type V = LiteralView;

    open spec fn view(&self) -> LiteralView {
        match self {
            Literal::String(s) => LiteralView::String(s@),
            Literal::Int(i) => LiteralView::Int(*i as int),
            Literal::Float(bits) => LiteralView::Float(*bits),
            Literal::Void => LiteralView::Void,
        }
    }
}

impl Clone for Literal {
    fn clone(&self) -> (res: Self)
        ensures
            res@ == self@,
    {
        match self {
            Literal::String(s) => Literal::String(s.clone()),
            Literal::Int(i) => Literal::Int(*i),
            Literal::Float(bits) => Literal::Float(*bits),
            Literal::Void => Literal::Void,
        }
    }
}

} // verus!
