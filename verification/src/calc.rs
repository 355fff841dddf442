use vstd::prelude::*;
use crate::env::Env;
use crate::float::{
    ask_arith, ask_from_int, ask_to_int, float_arith, float_to_int, int_to_float, kernel_ok,
    FloatAnswer, FloatOp, FloatQuery,
};
use crate::text::{chars_to_string, string_chars};
use crate::token::{seq_view, FakeFloat, Symbol, Token, TokenView};
use crate::value::{resolve_tokens, resolved, Bindings};

verus! {

/// Why an evaluation stopped without a value.
#[derive(Debug)]
pub enum EvalError {
    /// A run-time error that the language reports (under the path `RUNTIME`
    /// at position 0:0) before it stops, with its message.
    Reported(String),
    /// The evaluation would index out of bounds, underflow, or print a token
    /// that has no text: the program cannot go on.
    Fault,
    /// The evaluation would loop for ever without progress.
    Stuck,
    /// The evaluations nested deeper than the fuel that was given.
    Exhausted,
}

/// The model of an `EvalError`.
pub enum EvalErrorView {
    Reported(Seq<char>),
    Fault,
    Stuck,
    Exhausted,
}

impl View for EvalError {
    type V = EvalErrorView;

    open spec fn view(&self) -> EvalErrorView {
        match self {
            EvalError::Reported(m) => EvalErrorView::Reported(m@),
            EvalError::Fault => EvalErrorView::Fault,
            EvalError::Stuck => EvalErrorView::Stuck,
            EvalError::Exhausted => EvalErrorView::Exhausted,
        }
    }
}

/// `s` written `n` times.
pub open spec fn repeat_text(s: Seq<char>, n: nat) -> Seq<char>
    decreases n,
{
    if n == 0 {
        Seq::empty()
    } else {
        repeat_text(s, (n - 1) as nat) + s
    }
}

/// `s` written `n` times has `n` times the length of `s`.
pub proof fn lemma_repeat_len(s: Seq<char>, n: nat)
    ensures
        repeat_text(s, n).len() == s.len() * n,
    decreases n,
{
    if n > 0 {
        lemma_repeat_len(s, (n - 1) as nat);
        assert(s.len() * n == s.len() * (n - 1) + s.len()) by (nonlinear_arith);
    } else {
        assert(s.len() * n == 0) by (nonlinear_arith)
            requires
                n == 0,
        ;
    }
}

/// The empty text written any number of times is empty.
pub proof fn lemma_repeat_empty(n: nat)
    ensures
        repeat_text(Seq::<char>::empty(), n) == Seq::<char>::empty(),
    decreases n,
{
    if n > 0 {
        lemma_repeat_empty((n - 1) as nat);
        assert(repeat_text(Seq::<char>::empty(), (n - 1) as nat) + Seq::<char>::empty() =~= Seq::<char>::empty());
    }
}

/// What `calc_str` gives, after bound identifiers are replaced by their
/// values: a lone string is itself; `string * n` is the string written `n`
/// times (nothing for a negative `n`; a fault where its length would pass
/// `isize::MAX`, the most a string can hold); `string + string` is their concatenation; anything else is
/// `Nothing`.
pub open spec fn str_calc(tokens: Seq<TokenView>, vars: Bindings) -> Result<TokenView, EvalErrorView> {
    let t = resolved(tokens, vars);
    if t.len() == 1 {
        match t[0] {
            TokenView::String(s) => Ok(TokenView::String(s)),
            _ => Ok(TokenView::Nothing),
        }
    } else if t.len() == 3 {
        match (t[0], t[1], t[2]) {
            (TokenView::String(s), TokenView::Symbol(Symbol::Multiply), TokenView::Integer(n)) => {
                if n < 0 {
                    Ok(TokenView::String(Seq::empty()))
                } else if s.len() * n > isize::MAX {
                    Err(EvalErrorView::Fault)
                } else {
                    Ok(TokenView::String(repeat_text(s, n as nat)))
                }
            },
            (TokenView::String(s1), TokenView::Symbol(Symbol::Plus), TokenView::String(s2)) => Ok(
                TokenView::String(s1 + s2),
            ),
            _ => Ok(TokenView::Nothing),
        }
    } else {
        Ok(TokenView::Nothing)
    }
}

fn repeat_chars(s: &Vec<char>, n: usize) -> (r: Vec<char>)
    requires
        s@.len() * n <= usize::MAX,
    ensures
        r@ == repeat_text(s@, n as nat),
{
    if s.len() == 0 {
        proof {
            assert(s@ =~= Seq::<char>::empty());
            lemma_repeat_empty(n as nat);
        }
        return Vec::new();
    }
    let mut r: Vec<char> = Vec::new();
    let mut j: usize = 0;
    while j < n
        invariant
            j <= n,
            r@ == repeat_text(s@, j as nat),
        decreases n - j,
    {
        let ghost before = r@;
        let mut m: usize = 0;
        while m < s.len()
            invariant
                m <= s@.len(),
                r@ == before + s@.subrange(0, m as int),
            decreases s.len() - m,
        {
            r.push(s[m]);
            m = m + 1;
            assert(r@ =~= before + s@.subrange(0, m as int));
        }
        assert(s@.subrange(0, s@.len() as int) =~= s@);
        j = j + 1;
    }
    r
}

/// String arithmetic: see `str_calc`.
pub fn calc_str(tokens: Vec<Token>, variables: &Env) -> (r: Result<Token, EvalError>)
    ensures
        match r {
            Ok(t) => str_calc(seq_view(tokens@), variables@) == Ok::<TokenView, EvalErrorView>(t@),
            Err(e) => str_calc(seq_view(tokens@), variables@) == Err::<TokenView, EvalErrorView>(e@),
        },
{
    let t = resolve_tokens(&tokens, variables);
    let ghost tv = seq_view(t@);
    assert(tv.len() == t@.len());
    if t.len() == 1 {
        assert(tv[0] == t@[0]@);
        return match &t[0] {
            Token::String(s) => Ok(Token::String(s.clone())),
            _ => Ok(Token::Nothing),
        };
    }
    if t.len() == 3 {
        assert(tv[0] == t@[0]@ && tv[1] == t@[1]@ && tv[2] == t@[2]@);
        match (&t[0], &t[1], &t[2]) {
            (Token::String(s), Token::Symbol(Symbol::Multiply), Token::Integer(n)) => {
                if *n < 0 {
                    return Ok(Token::String(String::new()));
                }
                let chars = string_chars(s);
                let count = *n as usize;
                let limit: usize = isize::MAX as usize;
                if chars.len() > 0 && count > limit / chars.len() {
                    proof {
                        let l = chars@.len() as int;
                        let c = count as int;
                        assert(c * l > isize::MAX) by (nonlinear_arith)
                            requires
                                l > 0,
                                c > limit as int / l,
                                limit == isize::MAX,
                        ;
                        assert(s@.len() * c == c * l) by (nonlinear_arith)
                            requires
                                s@.len() == l,
                        ;
                    }
                    return Err(EvalError::Fault);
                }
                proof {
                    let l = chars@.len() as int;
                    let c = count as int;
                    if l > 0 {
                        assert(l * c <= isize::MAX) by (nonlinear_arith)
                            requires
                                l > 0,
                                c <= limit as int / l,
                                limit == isize::MAX,
                        ;
                    }
                }
                let v = repeat_chars(&chars, count);
                return Ok(Token::String(chars_to_string(&v)));
            },
            (Token::String(s1), Token::Symbol(Symbol::Plus), Token::String(s2)) => {
                let mut a = string_chars(s1);
                let b = string_chars(s2);
                let mut i: usize = 0;
                let ghost a0 = a@;
                while i < b.len()
                    invariant
                        i <= b@.len(),
                        a@ == a0 + b@.subrange(0, i as int),
                    decreases b.len() - i,
                {
                    a.push(b[i]);
                    i = i + 1;
                    assert(a@ =~= a0 + b@.subrange(0, i as int));
                }
                assert(b@.subrange(0, b@.len() as int) =~= b@);
                return Ok(Token::String(chars_to_string(&a)));
            },
            _ => {
                return Ok(Token::Nothing);
            },
        }
    }
    Ok(Token::Nothing)
}

/// The numeric value of a token in `calc_fi`'s arithmetic: integers
/// converted to floats, floats as they are, anything else zero.
pub open spec fn fi_value<K: Fn(FloatQuery) -> FloatAnswer>(k: K, t: TokenView) -> FakeFloat {
    match t {
        TokenView::Integer(n) => int_to_float(k, n),
        TokenView::Float(f) => f,
        _ => FakeFloat(0),
    }
}

/// Whether `t` is `+` or `-`.
pub open spec fn is_additive(t: TokenView) -> bool {
    t == TokenView::Symbol(Symbol::Plus) || t == TokenView::Symbol(Symbol::Minus)
}

/// The terms of `t` between the `+` and `-` symbols (one more than there are
/// such symbols, some perhaps empty), and those symbols in order.
pub open spec fn split_terms(t: Seq<TokenView>) -> (Seq<Seq<TokenView>>, Seq<TokenView>)
    decreases t.len(),
{
    if t.len() == 0 {
        (seq![Seq::empty()], Seq::empty())
    } else {
        let (terms, ops) = split_terms(t.drop_last());
        let x = t.last();
        if is_additive(x) {
            (terms.push(Seq::empty()), ops.push(x))
        } else {
            (terms.update(terms.len() - 1, terms.last().push(x)), ops)
        }
    }
}

/// `split_terms` always gives at least one term.
pub proof fn lemma_split_terms_len(t: Seq<TokenView>)
    ensures
        split_terms(t).0.len() >= 1,
    decreases t.len(),
{
    if t.len() > 0 {
        lemma_split_terms_len(t.drop_last());
    }
}

/// The product chain of a term, from position `i` with the value `acc` so
/// far: each symbol is followed by a value (a fault where none is), `*`, `/`
/// and `%` apply it, other symbols skip it; a value where a symbol should be
/// makes the loop run for ever.
pub open spec fn term_loop<K: Fn(FloatQuery) -> FloatAnswer>(
    k: K,
    term: Seq<TokenView>,
    i: int,
    acc: FakeFloat,
) -> Result<FakeFloat, EvalErrorView>
    decreases term.len() - i,
{
    if i < 0 || i >= term.len() {
        Ok(acc)
    } else {
        match term[i] {
            TokenView::Symbol(sym) => {
                if i + 1 >= term.len() {
                    Err(EvalErrorView::Fault)
                } else {
                    let next = fi_value(k, term[i + 1]);
                    let acc2 = match sym {
                        Symbol::Multiply => float_arith(k, FloatOp::Mul, acc, next),
                        Symbol::Divide => float_arith(k, FloatOp::Div, acc, next),
                        Symbol::Mod => float_arith(k, FloatOp::Rem, acc, next),
                        _ => acc,
                    };
                    term_loop(k, term, i + 2, acc2)
                }
            },
            _ => Err(EvalErrorView::Stuck),
        }
    }
}

/// The values of the non-empty terms from the `j`-th on, after `acc`.
pub open spec fn term_values<K: Fn(FloatQuery) -> FloatAnswer>(
    k: K,
    terms: Seq<Seq<TokenView>>,
    j: int,
    acc: Seq<FakeFloat>,
) -> Result<Seq<FakeFloat>, EvalErrorView>
    decreases terms.len() - j,
{
    if j < 0 || j >= terms.len() {
        Ok(acc)
    } else if terms[j].len() == 0 {
        term_values(k, terms, j + 1, acc)
    } else {
        match term_loop(k, terms[j], 1, fi_value(k, terms[j][0])) {
            Err(e) => Err(e),
            Ok(v) => term_values(k, terms, j + 1, acc.push(v)),
        }
    }
}

/// The sum chain: the `j`-th operator applies the `j + 1`-th value (a fault
/// where there is none).
pub open spec fn sum_loop<K: Fn(FloatQuery) -> FloatAnswer>(
    k: K,
    ops: Seq<TokenView>,
    values: Seq<FakeFloat>,
    j: int,
    acc: FakeFloat,
) -> Result<FakeFloat, EvalErrorView>
    decreases ops.len() - j,
{
    if j < 0 || j >= ops.len() {
        Ok(acc)
    } else if j + 1 >= values.len() {
        Err(EvalErrorView::Fault)
    } else if ops[j] == TokenView::Symbol(Symbol::Plus) {
        sum_loop(k, ops, values, j + 1, float_arith(k, FloatOp::Add, acc, values[j + 1]))
    } else if ops[j] == TokenView::Symbol(Symbol::Minus) {
        sum_loop(k, ops, values, j + 1, float_arith(k, FloatOp::Sub, acc, values[j + 1]))
    } else {
        sum_loop(k, ops, values, j + 1, acc)
    }
}

/// Whether some token of `t` is a float.
pub open spec fn has_float(t: Seq<TokenView>) -> bool {
    exists|i: int| 0 <= i < t.len() && t[i] is Float
}

/// The floating point arithmetic of `calc_fi` on tokens that are all
/// numbers and symbols: products first, then sums, the result a float if
/// any token was one, else the float converted to an integer.
pub open spec fn fi_arith<K: Fn(FloatQuery) -> FloatAnswer>(k: K, t: Seq<TokenView>) -> Result<TokenView, EvalErrorView> {
    let (terms, ops) = split_terms(t);
    match term_values(k, terms, 0, Seq::empty()) {
        Err(e) => Err(e),
        Ok(values) => if values.len() == 0 {
            Err(EvalErrorView::Fault)
        } else {
            match sum_loop(k, ops, values, 0, values[0]) {
                Err(e) => Err(e),
                Ok(total) => if has_float(t) {
                    Ok(TokenView::Float(total))
                } else {
                    Ok(TokenView::Integer(float_to_int(k, total)))
                },
            }
        },
    }
}

fn fi_value_of<K: Fn(FloatQuery) -> FloatAnswer>(k: &K, t: &Token) -> (r: FakeFloat)
    requires
        kernel_ok(*k),
    ensures
        r == fi_value(*k, t@),
{
    match t {
        Token::Integer(n) => ask_from_int(k, *n),
        Token::Float(f) => *f,
        _ => FakeFloat(0),
    }
}

fn split_into_terms(t: &Vec<Token>) -> (r: (Vec<Vec<Token>>, Vec<Token>))
    ensures
        r.0@.len() == split_terms(seq_view(t@)).0.len(),
        forall|j: int| 0 <= j < r.0@.len() ==> seq_view((#[trigger] r.0@[j])@) == split_terms(seq_view(t@)).0[j],
        seq_view(r.1@) == split_terms(seq_view(t@)).1,
{
    let mut terms: Vec<Vec<Token>> = Vec::new();
    let mut ops: Vec<Token> = Vec::new();
    let mut current: Vec<Token> = Vec::new();
    let mut i: usize = 0;
    proof {
        assert(seq_view(t@).subrange(0, 0) =~= Seq::<TokenView>::empty());
    }
    while i < t.len()
        invariant
            i <= t@.len(),
            ({
                let s = split_terms(seq_view(t@).subrange(0, i as int));
                &&& s.0.len() == terms@.len() + 1
                &&& forall|j: int| 0 <= j < terms@.len() ==> seq_view((#[trigger] terms@[j])@) == s.0[j]
                &&& seq_view(current@) == s.0[terms@.len() as int]
                &&& seq_view(ops@) == s.1
            }),
        decreases t.len() - i,
    {
        let ghost pre = seq_view(t@).subrange(0, i as int);
        let ghost nxt = seq_view(t@).subrange(0, i + 1);
        proof {
            assert(nxt.drop_last() =~= pre);
            assert(nxt.last() == t@[i as int]@);
        }
        let is_op = match &t[i] {
            Token::Symbol(Symbol::Plus) => true,
            Token::Symbol(Symbol::Minus) => true,
            _ => false,
        };
        if is_op {
            let mut done: Vec<Token> = Vec::new();
            std::mem::swap(&mut done, &mut current);
            terms.push(done);
            ops.push(t[i].duplicate());
            proof {
                lemma_seq_view_push_local(ops@.drop_last(), ops@.last());
                assert(ops@.drop_last().push(ops@.last()) =~= ops@);
                assert(seq_view(current@) =~= Seq::<TokenView>::empty());
            }
        } else {
            current.push(t[i].duplicate());
            proof {
                lemma_seq_view_push_local(current@.drop_last(), current@.last());
                assert(current@.drop_last().push(current@.last()) =~= current@);
            }
        }
        i = i + 1;
    }
    proof {
        assert(seq_view(t@).subrange(0, t@.len() as int) =~= seq_view(t@));
    }
    terms.push(current);
    (terms, ops)
}

proof fn lemma_seq_view_push_local(s: Seq<Token>, t: Token)
    ensures
        seq_view(s.push(t)) == seq_view(s).push(t@),
{
    assert(seq_view(s.push(t)) =~= seq_view(s).push(t@));
}

fn term_value<K: Fn(FloatQuery) -> FloatAnswer>(k: &K, term: &Vec<Token>) -> (r: Result<FakeFloat, EvalError>)
    requires
        kernel_ok(*k),
        term@.len() > 0,
    ensures
        match r {
            Ok(v) => term_loop(*k, seq_view(term@), 1, fi_value(*k, seq_view(term@)[0])) == Ok::<FakeFloat, EvalErrorView>(v),
            Err(e) => term_loop(*k, seq_view(term@), 1, fi_value(*k, seq_view(term@)[0])) == Err::<FakeFloat, EvalErrorView>(e@),
        },
{
    let ghost tv = seq_view(term@);
    let mut acc = fi_value_of(k, &term[0]);
    let mut i: usize = 1;
    while i < term.len()
        invariant
            kernel_ok(*k),
            tv == seq_view(term@),
            1 <= i,
            term_loop(*k, tv, 1, fi_value(*k, tv[0])) == term_loop(*k, tv, i as int, acc),
        decreases term.len() - i,
    {
        assert(tv[i as int] == term@[i as int]@);
        match &term[i] {
            Token::Symbol(sym) => {
                if i + 1 >= term.len() {
                    return Err(EvalError::Fault);
                }
                assert(tv[i + 1] == term@[i + 1]@);
                let next = fi_value_of(k, &term[i + 1]);
                acc = match sym {
                    Symbol::Multiply => ask_arith(k, FloatOp::Mul, acc, next),
                    Symbol::Divide => ask_arith(k, FloatOp::Div, acc, next),
                    Symbol::Mod => ask_arith(k, FloatOp::Rem, acc, next),
                    _ => acc,
                };
                i = i + 2;
            },
            _ => {
                return Err(EvalError::Stuck);
            },
        }
    }
    Ok(acc)
}

/// The floating point arithmetic of `calc_fi`, as `fi_arith` says.
pub fn fi_arithmetic<K: Fn(FloatQuery) -> FloatAnswer>(k: &K, t: &Vec<Token>) -> (r: Result<Token, EvalError>)
    requires
        kernel_ok(*k),
    ensures
        match r {
            Ok(v) => fi_arith(*k, seq_view(t@)) == Ok::<TokenView, EvalErrorView>(v@),
            Err(e) => fi_arith(*k, seq_view(t@)) == Err::<TokenView, EvalErrorView>(e@),
        },
{
    let ghost tv = seq_view(t@);
    let (terms, ops) = split_into_terms(t);
    let ghost st = split_terms(tv);
    let mut values: Vec<FakeFloat> = Vec::new();
    let mut j: usize = 0;
    while j < terms.len()
        invariant
            kernel_ok(*k),
            st == split_terms(seq_view(t@)),
            terms@.len() == st.0.len(),
            forall|m: int| 0 <= m < terms@.len() ==> seq_view((#[trigger] terms@[m])@) == st.0[m],
            j <= terms@.len(),
            term_values(*k, st.0, 0, Seq::empty()) == term_values(*k, st.0, j as int, values@),
        decreases terms.len() - j,
    {
        assert(seq_view(terms@[j as int]@) == st.0[j as int]);
        if terms[j].len() > 0 {
            assert(st.0[j as int][0] == terms@[j as int]@[0]@);
            match term_value(k, &terms[j]) {
                Err(e) => {
                    return Err(e);
                },
                Ok(v) => {
                    values.push(v);
                },
            }
        }
        j = j + 1;
    }
    if values.len() == 0 {
        return Err(EvalError::Fault);
    }
    let mut total = values[0];
    let mut m: usize = 0;
    while m < ops.len()
        invariant
            kernel_ok(*k),
            st == split_terms(seq_view(t@)),
            term_values(*k, st.0, 0, Seq::empty()) == Ok::<Seq<FakeFloat>, EvalErrorView>(values@),
            seq_view(ops@) == st.1,
            m <= ops@.len(),
            values@.len() > 0,
            sum_loop(*k, st.1, values@, 0, values@[0]) == sum_loop(*k, st.1, values@, m as int, total),
        decreases ops.len() - m,
    {
        if m + 1 >= values.len() {
            return Err(EvalError::Fault);
        }
        assert(st.1[m as int] == ops@[m as int]@);
        let is_plus = match &ops[m] {
            Token::Symbol(Symbol::Plus) => true,
            _ => false,
        };
        let is_minus = match &ops[m] {
            Token::Symbol(Symbol::Minus) => true,
            _ => false,
        };
        if is_plus {
            total = ask_arith(k, FloatOp::Add, total, values[m + 1]);
        } else if is_minus {
            total = ask_arith(k, FloatOp::Sub, total, values[m + 1]);
        }
        m = m + 1;
    }
    let mut float_seen = false;
    let mut i: usize = 0;
    while i < t.len()
        invariant
            i <= t@.len(),
            tv == seq_view(t@),
            float_seen <==> exists|j: int| 0 <= j < i && tv[j] is Float,
        decreases t.len() - i,
    {
        assert(tv[i as int] == t@[i as int]@);
        if let Token::Float(_) = &t[i] {
            float_seen = true;
        }
        i = i + 1;
    }
    if float_seen {
        Ok(Token::Float(total))
    } else {
        Ok(Token::Integer(ask_to_int(k, total)))
    }
}

} // verus!
