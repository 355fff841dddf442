use vstd::prelude::*;
use crate::token::FakeFloat;

verus! {

/// The arithmetic operations on floating point values.
#[derive(Debug, PartialEq, Eq, Clone, Copy, Structural)]
pub enum FloatOp {
    Add,
    Sub,
    Mul,
    Div,
    Rem,
}

/// The outcome of comparing two floating point values (`partial_cmp`).
#[derive(Debug, PartialEq, Eq, Clone, Copy, Structural)]
pub enum FloatOrder {
    Less,
    Equal,
    Greater,
    Unordered,
}

/// A question about floating point values, which the caller's float kernel
/// answers: the library itself holds no floating point code.
#[derive(Debug)]
pub enum FloatQuery {
    /// `str::parse::<f64>` of the text.
    Parse(String),
    /// The `Display` text of the value.
    Display(FakeFloat),
    /// The `Debug` text of the value.
    DebugText(FakeFloat),
    /// `n as f64`.
    FromInteger(isize),
    /// `f as isize`.
    ToInteger(FakeFloat),
    /// The operation applied to the two values.
    Arith(FloatOp, FakeFloat, FakeFloat),
    /// `partial_cmp` of the two values.
    Compare(FakeFloat, FakeFloat),
}

/// An answer of the float kernel.
#[derive(Debug)]
pub enum FloatAnswer {
    Parsed(Option<FakeFloat>),
    Text(String),
    Value(FakeFloat),
    Integer(isize),
    Order(FloatOrder),
}

/// The model of a question.
pub enum FloatQueryView {
    Parse(Seq<char>),
    Display(FakeFloat),
    DebugText(FakeFloat),
    FromInteger(isize),
    ToInteger(FakeFloat),
    Arith(FloatOp, FakeFloat, FakeFloat),
    Compare(FakeFloat, FakeFloat),
}

/// The model of an answer.
pub enum FloatAnswerView {
    Parsed(Option<FakeFloat>),
    Text(Seq<char>),
    Value(FakeFloat),
    Integer(isize),
    Order(FloatOrder),
}

impl View for FloatQuery {
    type V = FloatQueryView;

    open spec fn view(&self) -> FloatQueryView {
        match self {
            FloatQuery::Parse(s) => FloatQueryView::Parse(s@),
            FloatQuery::Display(f) => FloatQueryView::Display(*f),
            FloatQuery::DebugText(f) => FloatQueryView::DebugText(*f),
            FloatQuery::FromInteger(n) => FloatQueryView::FromInteger(*n),
            FloatQuery::ToInteger(f) => FloatQueryView::ToInteger(*f),
            FloatQuery::Arith(op, a, b) => FloatQueryView::Arith(*op, *a, *b),
            FloatQuery::Compare(a, b) => FloatQueryView::Compare(*a, *b),
        }
    }
}

impl View for FloatAnswer {
    type V = FloatAnswerView;

    open spec fn view(&self) -> FloatAnswerView {
        match self {
            FloatAnswer::Parsed(o) => FloatAnswerView::Parsed(*o),
            FloatAnswer::Text(s) => FloatAnswerView::Text(s@),
            FloatAnswer::Value(f) => FloatAnswerView::Value(*f),
            FloatAnswer::Integer(n) => FloatAnswerView::Integer(*n),
            FloatAnswer::Order(o) => FloatAnswerView::Order(*o),
        }
    }
}

/// A float kernel can be asked anything, and answers questions with the
/// same model the same way.
pub open spec fn kernel_ok<K: Fn(FloatQuery) -> FloatAnswer>(k: K) -> bool {
    &&& forall|q: FloatQuery| call_requires(k, (q,))
    &&& forall|q1: FloatQuery, q2: FloatQuery, a1: FloatAnswer, a2: FloatAnswer|
        q1@ == q2@ && #[trigger] call_ensures(k, (q1,), a1) && #[trigger] call_ensures(k, (q2,), a2)
            ==> a1@ == a2@
}

/// The kernel's answer to a question.
pub open spec fn answer<K: Fn(FloatQuery) -> FloatAnswer>(k: K, q: FloatQueryView) -> FloatAnswerView {
    let (a, q2) = choose|a: FloatAnswer, q2: FloatQuery| q2@ == q && #[trigger] call_ensures(k, (q2,), a);
    a@
}

/// Asks the kernel a question.
pub fn ask<K: Fn(FloatQuery) -> FloatAnswer>(k: &K, q: FloatQuery) -> (a: FloatAnswer)
    requires
        kernel_ok(*k),
    ensures
        a@ == answer(*k, q@),
{
    let ghost gq = q;
    let a = k(q);
    proof {
        assert(call_ensures(*k, (gq,), a));
        let (a2, q2) = choose|a2: FloatAnswer, q2: FloatQuery| q2@ == gq@ && #[trigger] call_ensures(*k, (q2,), a2);
        assert(call_ensures(*k, (q2,), a2));
    }
    a
}

/// The value of the text as a float, if it parses.
pub open spec fn parse_float<K: Fn(FloatQuery) -> FloatAnswer>(k: K, text: Seq<char>) -> Option<FakeFloat> {
    match answer(k, FloatQueryView::Parse(text)) {
        FloatAnswerView::Parsed(o) => o,
        _ => None,
    }
}

/// The display text of a float.
pub open spec fn float_text<K: Fn(FloatQuery) -> FloatAnswer>(k: K, f: FakeFloat) -> Seq<char> {
    match answer(k, FloatQueryView::Display(f)) {
        FloatAnswerView::Text(t) => t,
        _ => Seq::empty(),
    }
}

/// The debug text of a float.
pub open spec fn float_debug_text<K: Fn(FloatQuery) -> FloatAnswer>(k: K, f: FakeFloat) -> Seq<char> {
    match answer(k, FloatQueryView::DebugText(f)) {
        FloatAnswerView::Text(t) => t,
        _ => Seq::empty(),
    }
}

/// The float nearest to an integer.
pub open spec fn int_to_float<K: Fn(FloatQuery) -> FloatAnswer>(k: K, n: isize) -> FakeFloat {
    match answer(k, FloatQueryView::FromInteger(n)) {
        FloatAnswerView::Value(f) => f,
        _ => FakeFloat(0),
    }
}

/// A float converted to an integer.
pub open spec fn float_to_int<K: Fn(FloatQuery) -> FloatAnswer>(k: K, f: FakeFloat) -> isize {
    match answer(k, FloatQueryView::ToInteger(f)) {
        FloatAnswerView::Integer(n) => n,
        _ => 0,
    }
}

/// The result of an arithmetic operation on floats.
pub open spec fn float_arith<K: Fn(FloatQuery) -> FloatAnswer>(k: K, op: FloatOp, a: FakeFloat, b: FakeFloat) -> FakeFloat {
    match answer(k, FloatQueryView::Arith(op, a, b)) {
        FloatAnswerView::Value(f) => f,
        _ => FakeFloat(0),
    }
}

/// How two floats compare.
pub open spec fn float_order<K: Fn(FloatQuery) -> FloatAnswer>(k: K, a: FakeFloat, b: FakeFloat) -> FloatOrder {
    match answer(k, FloatQueryView::Compare(a, b)) {
        FloatAnswerView::Order(o) => o,
        _ => FloatOrder::Unordered,
    }
}

/// Parses text as a float.
pub fn ask_parse<K: Fn(FloatQuery) -> FloatAnswer>(k: &K, text: &Vec<char>) -> (r: Option<FakeFloat>)
    requires
        kernel_ok(*k),
    ensures
        r == parse_float(*k, text@),
{
    let s = crate::text::chars_to_string(text);
    match ask(k, FloatQuery::Parse(s)) {
        FloatAnswer::Parsed(o) => o,
        _ => None,
    }
}

/// The display text of a float.
pub fn ask_text<K: Fn(FloatQuery) -> FloatAnswer>(k: &K, f: FakeFloat) -> (r: Vec<char>)
    requires
        kernel_ok(*k),
    ensures
        r@ == float_text(*k, f),
{
    match ask(k, FloatQuery::Display(f)) {
        FloatAnswer::Text(t) => crate::text::string_chars(&t),
        _ => Vec::new(),
    }
}

/// The debug text of a float.
pub fn ask_debug_text<K: Fn(FloatQuery) -> FloatAnswer>(k: &K, f: FakeFloat) -> (r: Vec<char>)
    requires
        kernel_ok(*k),
    ensures
        r@ == float_debug_text(*k, f),
{
    match ask(k, FloatQuery::DebugText(f)) {
        FloatAnswer::Text(t) => crate::text::string_chars(&t),
        _ => Vec::new(),
    }
}

/// An integer as a float.
pub fn ask_from_int<K: Fn(FloatQuery) -> FloatAnswer>(k: &K, n: isize) -> (r: FakeFloat)
    requires
        kernel_ok(*k),
    ensures
        r == int_to_float(*k, n),
{
    match ask(k, FloatQuery::FromInteger(n)) {
        FloatAnswer::Value(f) => f,
        _ => FakeFloat(0),
    }
}

/// A float as an integer.
pub fn ask_to_int<K: Fn(FloatQuery) -> FloatAnswer>(k: &K, f: FakeFloat) -> (r: isize)
    requires
        kernel_ok(*k),
    ensures
        r == float_to_int(*k, f),
{
    match ask(k, FloatQuery::ToInteger(f)) {
        FloatAnswer::Integer(n) => n,
        _ => 0,
    }
}

/// An arithmetic operation on floats.
pub fn ask_arith<K: Fn(FloatQuery) -> FloatAnswer>(k: &K, op: FloatOp, a: FakeFloat, b: FakeFloat) -> (r: FakeFloat)
    requires
        kernel_ok(*k),
    ensures
        r == float_arith(*k, op, a, b),
{
    match ask(k, FloatQuery::Arith(op, a, b)) {
        FloatAnswer::Value(f) => f,
        _ => FakeFloat(0),
    }
}

/// Compares two floats.
pub fn ask_order<K: Fn(FloatQuery) -> FloatAnswer>(k: &K, a: FakeFloat, b: FakeFloat) -> (r: FloatOrder)
    requires
        kernel_ok(*k),
    ensures
        r == float_order(*k, a, b),
{
    match ask(k, FloatQuery::Compare(a, b)) {
        FloatAnswer::Order(o) => o,
        _ => FloatOrder::Unordered,
    }
}

impl FakeFloat {
    /// The text of the value as `{}` formats a float: the float kernel's
    /// `Display` answer.
    pub fn display<K: Fn(FloatQuery) -> FloatAnswer>(&self, floats: &K) -> (r: String)
        requires
            kernel_ok(*floats),
        ensures
            r@ == float_text(*floats, *self),
    {
        crate::text::chars_to_string(&ask_text(floats, *self))
    }
}

} // verus!
