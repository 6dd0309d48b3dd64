//! What the evaluator asks of the program that runs it.
//!
//! The library holds floating-point numbers only by their bits. Every
//! computation on them, and all output, is done by the host: the evaluator
//! hands out a request, the host answers it.
use crate::value::Double;
use vstd::prelude::*;

verus! {

/// An operand of a floating-point computation: an integer, which the host
/// converts to the nearest double, or a double.
#[derive(Debug, Clone, Copy, PartialEq, Eq, Structural)]
pub enum Number {
    Int(i64),
    Double(Double),
}

#[derive(Debug, Clone, Copy, PartialEq, Eq, Structural)]
pub enum FloatOp {
    Add,
    Subtract,
    Multiply,
    Divide,
}

#[derive(Debug, Clone, Copy, PartialEq, Eq, Structural)]
pub enum Comparison {
    Equal,
    Less,
    LessEqual,
    Greater,
    GreaterEqual,
}

#[derive(Debug, Clone, Copy, PartialEq, Eq, Structural)]
pub enum Rounding {
    /// Toward negative infinity.
    Down,
    /// Toward positive infinity.
    Up,
    /// To the nearest integer.
    Nearest,
}

/// A computation that the host is asked to do.
#[derive(Debug)]
pub enum Request<S> {
    /// The double that a literal denotes. The answer is a double.
    Parse(S),
    /// The result of an arithmetic operation on doubles. The answer is a
    /// double.
    Arithmetic(FloatOp, Number, Number),
    /// Whether a comparison of doubles holds. The answer is a boolean.
    Compare(Comparison, Number, Number),
    /// The quotient of two doubles, rounded to an integer, and the
    /// remainder: the dividend less quotient times divisor. The answer is
    /// a pair of doubles.
    Divmod(Rounding, Number, Number),
    /// The quotient of two integers as doubles, rounded to the nearest
    /// integer. The answer is an integer.
    NearestQuotient(i64, i64),
}

impl View for Request<String> {
    type V = Request<Seq<char>>;

    open spec fn view(&self) -> Request<Seq<char>> {
        match self {
            Request::Parse(text) => Request::Parse(text@),
            Request::Arithmetic(op, a, b) => Request::Arithmetic(*op, *a, *b),
            Request::Compare(op, a, b) => Request::Compare(*op, *a, *b),
            Request::Divmod(rounding, a, b) => Request::Divmod(*rounding, *a, *b),
            Request::NearestQuotient(a, b) => Request::NearestQuotient(*a, *b),
        }
    }
}

/// The host's answer to a request.
#[derive(Debug, Clone, Copy, PartialEq, Eq, Structural)]
pub enum Reply {
    /// No request was pending.
    Nothing,
    Bool(bool),
    Int(i64),
    Double(Double),
    Pair(Double, Double),
}

/// The kind of answer that a request asks for.
#[derive(Debug, Clone, Copy, PartialEq, Eq, Structural)]
pub enum Answer {
    Bool,
    Int,
    Double,
    Pair,
}

/// The kind of answer that a request asks for.
pub open spec fn asked<S>(request: Request<S>) -> Answer {
    match request {
        Request::Parse(_) => Answer::Double,
        Request::Arithmetic(_, _, _) => Answer::Double,
        Request::Compare(_, _, _) => Answer::Bool,
        Request::Divmod(_, _, _) => Answer::Pair,
        Request::NearestQuotient(_, _) => Answer::Int,
    }
}

/// Whether a reply is of the kind that was asked for.
pub open spec fn fitting(reply: Reply, answer: Answer) -> bool {
    match answer {
        Answer::Bool => reply is Bool,
        Answer::Int => reply is Int,
        Answer::Double => reply is Double,
        Answer::Pair => reply is Pair,
    }
}

impl Request<String> {
    /// The kind of answer that the request asks for.
    pub fn answer(&self) -> (kind: Answer)
        ensures
            kind == asked(self@),
    {
        match self {
            Request::Parse(_) => Answer::Double,
            Request::Arithmetic(_, _, _) => Answer::Double,
            Request::Compare(_, _, _) => Answer::Bool,
            Request::Divmod(_, _, _) => Answer::Pair,
            Request::NearestQuotient(_, _) => Answer::Int,
        }
    }
}

impl Reply {
    /// Whether the reply is of the kind that was asked for.
    pub fn fits(&self, answer: Answer) -> (b: bool)
        ensures
            b == fitting(*self, answer),
    {
        match (answer, self) {
            (Answer::Bool, Reply::Bool(_)) => true,
            (Answer::Int, Reply::Int(_)) => true,
            (Answer::Double, Reply::Double(_)) => true,
            (Answer::Pair, Reply::Pair(_, _)) => true,
            _ => false,
        }
    }
}

/// A part of a printed value: text as it stands, or a double, which the
/// host writes in decimal with at least one fractional digit.
#[derive(Debug)]
pub enum Piece<S> {
    Text(S),
    Double(Double),
}

impl View for Piece<String> {
    type V = Piece<Seq<char>>;

    open spec fn view(&self) -> Piece<Seq<char>> {
        match self {
            Piece::Text(text) => Piece::Text(text@),
            Piece::Double(d) => Piece::Double(*d),
        }
    }
}

/// The contents of a sequence of pieces.
pub open spec fn piece_views(pieces: Seq<Piece<String>>) -> Seq<Piece<Seq<char>>> {
    Seq::new(pieces.len(), |i: int| pieces[i]@)
}

} // verus!
