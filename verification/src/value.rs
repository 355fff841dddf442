use vstd::prelude::*;
use crate::env::Env;
use crate::float::{ask_order, float_order, kernel_ok, FloatAnswer, FloatOrder, FloatQuery};
use crate::token::{seq_view, seqs_view, Token, TokenView};

verus! {

/// The variables of a run: names bound to values.
pub type Bindings = Map<Seq<char>, TokenView>;

/// Token equality as `==` on tokens decides it: the same variant with equal
/// parts, where floats are equal when the float kernel orders them `Equal`
/// (so `NaN` equals nothing and `0.0` equals `-0.0`).
pub open spec fn token_eq<K: Fn(FloatQuery) -> FloatAnswer>(k: K, a: TokenView, b: TokenView) -> bool
    decreases a,
{
    match a {
        TokenView::Integer(x) => b == TokenView::Integer(x),
        TokenView::Float(x) => match b {
            TokenView::Float(y) => float_order(k, x, y) == FloatOrder::Equal,
            _ => false,
        },
        TokenView::String(x) => b == TokenView::String(x),
        TokenView::Function(n, x) => match b {
            TokenView::Function(m, y) => n == m && lists_eq(k, x, y),
            _ => false,
        },
        TokenView::Boolean(x) => b == TokenView::Boolean(x),
        TokenView::Identifier(x) => b == TokenView::Identifier(x),
        TokenView::Symbol(x) => b == TokenView::Symbol(x),
        TokenView::Block(x) => match b {
            TokenView::Block(y) => seq_eq(k, x, y),
            _ => false,
        },
        TokenView::Array(x) => match b {
            TokenView::Array(y) => lists_eq(k, x, y),
            _ => false,
        },
        TokenView::Repeat(x) => match b {
            TokenView::Repeat(y) => seq_eq(k, x, y),
            _ => false,
        },
        TokenView::Return(x) => match b {
            TokenView::Return(y) => seq_eq(k, x, y),
            _ => false,
        },
        TokenView::Include(x) => b == TokenView::Include(x),
        TokenView::If(x) => match b {
            TokenView::If(y) => seq_eq(k, x, y),
            _ => false,
        },
        TokenView::Else => b == TokenView::Else,
        TokenView::Nothing => b == TokenView::Nothing,
    }
}

/// Two token lists are equal element by element.
pub open spec fn seq_eq<K: Fn(FloatQuery) -> FloatAnswer>(k: K, a: Seq<TokenView>, b: Seq<TokenView>) -> bool
    decreases a,
{
    if a.len() == 0 {
        b.len() == 0
    } else {
        &&& b.len() == a.len()
        &&& token_eq(k, a[0], b[0])
        &&& seq_eq(k, a.subrange(1, a.len() as int), b.subrange(1, b.len() as int))
    }
}

/// Two lists of token lists are equal element by element.
pub open spec fn lists_eq<K: Fn(FloatQuery) -> FloatAnswer>(k: K, a: Seq<Seq<TokenView>>, b: Seq<Seq<TokenView>>) -> bool
    decreases a,
{
    if a.len() == 0 {
        b.len() == 0
    } else {
        &&& b.len() == a.len()
        &&& seq_eq(k, a[0], b[0])
        &&& lists_eq(k, a.subrange(1, a.len() as int), b.subrange(1, b.len() as int))
    }
}

/// `seq_eq` holds exactly when the lengths agree and each pair is equal.
pub proof fn lemma_seq_eq<K: Fn(FloatQuery) -> FloatAnswer>(k: K, a: Seq<TokenView>, b: Seq<TokenView>)
    ensures
        seq_eq(k, a, b) <==> (a.len() == b.len() && forall|i: int| 0 <= i < a.len() ==> token_eq(k, #[trigger] a[i], b[i])),
    decreases a.len(),
{
    if a.len() > 0 && b.len() == a.len() {
        let a1 = a.subrange(1, a.len() as int);
        let b1 = b.subrange(1, b.len() as int);
        lemma_seq_eq(k, a1, b1);
        if seq_eq(k, a, b) {
            assert forall|i: int| 0 <= i < a.len() implies token_eq(k, #[trigger] a[i], b[i]) by {
                if i > 0 {
                    assert(a1[i - 1] == a[i]);
                    assert(b1[i - 1] == b[i]);
                }
            }
        }
        if forall|i: int| 0 <= i < a.len() ==> token_eq(k, #[trigger] a[i], b[i]) {
            assert forall|i: int| 0 <= i < a1.len() implies token_eq(k, #[trigger] a1[i], b1[i]) by {
                assert(a1[i] == a[i + 1]);
                assert(b1[i] == b[i + 1]);
                assert(token_eq(k, a[i + 1], b[i + 1]));
            }
            assert(token_eq(k, a[0], b[0]));
        }
    }
}

/// `lists_eq` holds exactly when the lengths agree and each pair is equal.
pub proof fn lemma_lists_eq<K: Fn(FloatQuery) -> FloatAnswer>(k: K, a: Seq<Seq<TokenView>>, b: Seq<Seq<TokenView>>)
    ensures
        lists_eq(k, a, b) <==> (a.len() == b.len() && forall|i: int| 0 <= i < a.len() ==> seq_eq(k, #[trigger] a[i], b[i])),
    decreases a.len(),
{
    if a.len() > 0 && b.len() == a.len() {
        let a1 = a.subrange(1, a.len() as int);
        let b1 = b.subrange(1, b.len() as int);
        lemma_lists_eq(k, a1, b1);
        if lists_eq(k, a, b) {
            assert forall|i: int| 0 <= i < a.len() implies seq_eq(k, #[trigger] a[i], b[i]) by {
                if i > 0 {
                    assert(a1[i - 1] == a[i]);
                    assert(b1[i - 1] == b[i]);
                }
            }
        }
        if forall|i: int| 0 <= i < a.len() ==> seq_eq(k, #[trigger] a[i], b[i]) {
            assert forall|i: int| 0 <= i < a1.len() implies seq_eq(k, #[trigger] a1[i], b1[i]) by {
                assert(a1[i] == a[i + 1]);
                assert(b1[i] == b[i + 1]);
                assert(seq_eq(k, a[i + 1], b[i + 1]));
            }
            assert(seq_eq(k, a[0], b[0]));
        }
    }
}

/// Decides `token_eq`.
pub fn tokens_equal<K: Fn(FloatQuery) -> FloatAnswer>(k: &K, a: &Token, b: &Token) -> (r: bool)
    requires
        kernel_ok(*k),
    ensures
        r == token_eq(*k, a@, b@),
    decreases a,
{
    match a {
        Token::Integer(x) => match b {
            Token::Integer(y) => *x == *y,
            _ => false,
        },
        Token::Float(x) => match b {
            Token::Float(y) => ask_order(k, *x, *y) == FloatOrder::Equal,
            _ => false,
        },
        Token::String(x) => match b {
            Token::String(y) => *x == *y,
            _ => false,
        },
        Token::Function(n, x) => match b {
            Token::Function(m, y) => *n == *m && lists_equal(k, x, y),
            _ => false,
        },
        Token::Boolean(x) => match b {
            Token::Boolean(y) => *x == *y,
            _ => false,
        },
        Token::Identifier(x) => match b {
            Token::Identifier(y) => *x == *y,
            _ => false,
        },
        Token::Symbol(x) => match b {
            Token::Symbol(y) => *x == *y,
            _ => false,
        },
        Token::Block(x) => match b {
            Token::Block(y) => vecs_equal(k, x, y),
            _ => false,
        },
        Token::Array(x) => match b {
            Token::Array(y) => lists_equal(k, x, y),
            _ => false,
        },
        Token::Repeat(x) => match b {
            Token::Repeat(y) => vecs_equal(k, x, y),
            _ => false,
        },
        Token::Return(x) => match b {
            Token::Return(y) => vecs_equal(k, x, y),
            _ => false,
        },
        Token::Include(x) => match b {
            Token::Include(y) => *x == *y,
            _ => false,
        },
        Token::If(x) => match b {
            Token::If(y) => vecs_equal(k, x, y),
            _ => false,
        },
        Token::Else => match b {
            Token::Else => true,
            _ => false,
        },
        Token::Nothing => match b {
            Token::Nothing => true,
            _ => false,
        },
    }
}

/// Decides `seq_eq` on two token lists.
pub fn vecs_equal<K: Fn(FloatQuery) -> FloatAnswer>(k: &K, a: &Vec<Token>, b: &Vec<Token>) -> (r: bool)
    requires
        kernel_ok(*k),
    ensures
        r == seq_eq(*k, seq_view(a@), seq_view(b@)),
    decreases a,
{
    proof {
        lemma_seq_eq(*k, seq_view(a@), seq_view(b@));
    }
    if a.len() != b.len() {
        return false;
    }
    let mut i: usize = 0;
    while i < a.len()
        invariant
            kernel_ok(*k),
            a@.len() == b@.len(),
            i <= a@.len(),
            forall|j: int| 0 <= j < i ==> token_eq(*k, #[trigger] seq_view(a@)[j], seq_view(b@)[j]),
        decreases a.len() - i,
    {
        proof {
            assert(decreases_to!(a => a@[i as int]));
        }
        if !tokens_equal(k, &a[i], &b[i]) {
            proof {
                lemma_seq_eq(*k, seq_view(a@), seq_view(b@));
                assert(!token_eq(*k, seq_view(a@)[i as int], seq_view(b@)[i as int]));
            }
            return false;
        }
        i = i + 1;
    }
    true
}

/// Decides `lists_eq` on two lists of token lists.
pub fn lists_equal<K: Fn(FloatQuery) -> FloatAnswer>(k: &K, a: &Vec<Vec<Token>>, b: &Vec<Vec<Token>>) -> (r: bool)
    requires
        kernel_ok(*k),
    ensures
        r == lists_eq(*k, seqs_view(a@), seqs_view(b@)),
    decreases a,
{
    proof {
        lemma_lists_eq(*k, seqs_view(a@), seqs_view(b@));
    }
    if a.len() != b.len() {
        return false;
    }
    let mut i: usize = 0;
    while i < a.len()
        invariant
            kernel_ok(*k),
            a@.len() == b@.len(),
            i <= a@.len(),
            forall|j: int| 0 <= j < i ==> seq_eq(*k, #[trigger] seqs_view(a@)[j], seqs_view(b@)[j]),
        decreases a.len() - i,
    {
        proof {
            assert(decreases_to!(a => a@[i as int]));
        }
        if !vecs_equal(k, &a[i], &b[i]) {
            proof {
                lemma_lists_eq(*k, seqs_view(a@), seqs_view(b@));
                assert(!seq_eq(*k, seqs_view(a@)[i as int], seqs_view(b@)[i as int]));
            }
            return false;
        }
        i = i + 1;
    }
    true
}

/// A token with the variables put in: a bound identifier becomes its value,
/// and blocks, conditions and function arguments are substituted inside.
pub open spec fn subst_token(t: TokenView, vars: Bindings) -> TokenView
    decreases t,
{
    match t {
        TokenView::Identifier(name) => if vars.contains_key(name) {
            vars[name]
        } else {
            t
        },
        TokenView::Block(inner) => TokenView::Block(subst_tokens(inner, vars)),
        TokenView::If(c) => TokenView::If(subst_tokens(c, vars)),
        TokenView::Repeat(c) => TokenView::Repeat(subst_tokens(c, vars)),
        TokenView::Function(name, args) => TokenView::Function(name, subst_lists(args, vars)),
        _ => t,
    }
}

/// `subst_token` on each token of a list.
pub open spec fn subst_tokens(s: Seq<TokenView>, vars: Bindings) -> Seq<TokenView>
    decreases s,
{
    Seq::new(s.len(), |i: int| if 0 <= i < s.len() { subst_token(s[i], vars) } else { TokenView::Nothing })
}

/// `subst_tokens` on each list.
pub open spec fn subst_lists(s: Seq<Seq<TokenView>>, vars: Bindings) -> Seq<Seq<TokenView>>
    decreases s,
{
    Seq::new(s.len(), |i: int| if 0 <= i < s.len() { subst_tokens(s[i], vars) } else { Seq::empty() })
}

/// Puts the variables into a token, as `subst_token` says.
pub fn substitute_token(t: &Token, vars: &Env) -> (r: Token)
    ensures
        r@ == subst_token(t@, vars@),
    decreases t,
{
    match t {
        Token::Identifier(name) => match vars.get(name) {
            Some(v) => v.duplicate(),
            None => t.duplicate(),
        },
        Token::Block(inner) => Token::Block(substitute_variables(inner, vars)),
        Token::If(c) => Token::If(substitute_variables(c, vars)),
        Token::Repeat(c) => Token::Repeat(substitute_variables(c, vars)),
        Token::Function(name, args) => Token::Function(name.clone(), substitute_lists(args, vars)),
        _ => t.duplicate(),
    }
}

/// Puts the variables into each token of a list, as `subst_tokens` says.
pub fn substitute_variables(tokens: &Vec<Token>, vars: &Env) -> (r: Vec<Token>)
    ensures
        seq_view(r@) == subst_tokens(seq_view(tokens@), vars@),
    decreases tokens,
{
    let mut r: Vec<Token> = Vec::new();
    let mut i: usize = 0;
    while i < tokens.len()
        invariant
            i <= tokens@.len(),
            r@.len() == i,
            forall|j: int| 0 <= j < i ==> (#[trigger] r@[j])@ == subst_token(tokens@[j]@, vars@),
        decreases tokens.len() - i,
    {
        proof {
            assert(decreases_to!(tokens => tokens@[i as int]));
        }
        let t = substitute_token(&tokens[i], vars);
        r.push(t);
        i = i + 1;
    }
    assert(seq_view(r@) =~= subst_tokens(seq_view(tokens@), vars@));
    r
}

/// Puts the variables into each list, as `subst_lists` says.
pub fn substitute_lists(lists: &Vec<Vec<Token>>, vars: &Env) -> (r: Vec<Vec<Token>>)
    ensures
        seqs_view(r@) == subst_lists(seqs_view(lists@), vars@),
    decreases lists,
{
    let mut r: Vec<Vec<Token>> = Vec::new();
    let mut i: usize = 0;
    while i < lists.len()
        invariant
            i <= lists@.len(),
            r@.len() == i,
            forall|j: int| 0 <= j < i ==> seq_view((#[trigger] r@[j])@) == subst_tokens(seq_view(lists@[j]@), vars@),
        decreases lists.len() - i,
    {
        proof {
            assert(decreases_to!(lists => lists@[i as int]));
        }
        let t = substitute_variables(&lists[i], vars);
        r.push(t);
        i = i + 1;
    }
    assert(seqs_view(r@) =~= subst_lists(seqs_view(lists@), vars@));
    r
}

/// A token with a bound identifier replaced by its value (one level only).
pub open spec fn resolve_one(t: TokenView, vars: Bindings) -> TokenView {
    match t {
        TokenView::Identifier(name) => if vars.contains_key(name) {
            vars[name]
        } else {
            t
        },
        _ => t,
    }
}

/// `resolve_one` on each token of a list.
pub open spec fn resolved(s: Seq<TokenView>, vars: Bindings) -> Seq<TokenView> {
    Seq::new(s.len(), |i: int| resolve_one(s[i], vars))
}

/// A token with a bound identifier replaced by its value.
pub fn resolve_token(t: &Token, vars: &Env) -> (r: Token)
    ensures
        r@ == resolve_one(t@, vars@),
{
    match t {
        Token::Identifier(name) => match vars.get(name) {
            Some(v) => v.duplicate(),
            None => t.duplicate(),
        },
        _ => t.duplicate(),
    }
}

/// Each token of a list with bound identifiers replaced by their values.
pub fn resolve_tokens(tokens: &Vec<Token>, vars: &Env) -> (r: Vec<Token>)
    ensures
        seq_view(r@) == resolved(seq_view(tokens@), vars@),
{
    let mut r: Vec<Token> = Vec::new();
    let mut i: usize = 0;
    while i < tokens.len()
        invariant
            i <= tokens@.len(),
            r@.len() == i,
            forall|j: int| 0 <= j < i ==> (#[trigger] r@[j])@ == resolve_one(tokens@[j]@, vars@),
        decreases tokens.len() - i,
    {
        let t = resolve_token(&tokens[i], vars);
        r.push(t);
        i = i + 1;
    }
    assert(seq_view(r@) =~= resolved(seq_view(tokens@), vars@));
    r
}

} // verus!

verus! {

/// Decides whether two tokens have the same model (floats compared by their
/// bit patterns).
pub fn same_token(a: &Token, b: &Token) -> (r: bool)
    ensures
        r == (a@ == b@),
    decreases a,
{
    match a {
        Token::Integer(x) => match b {
            Token::Integer(y) => *x == *y,
            _ => false,
        },
        Token::Float(x) => match b {
            Token::Float(y) => x.0 == y.0,
            _ => false,
        },
        Token::String(x) => match b {
            Token::String(y) => *x == *y,
            _ => false,
        },
        Token::Function(n, x) => match b {
            Token::Function(m, y) => *n == *m && same_lists(x, y),
            _ => false,
        },
        Token::Boolean(x) => match b {
            Token::Boolean(y) => *x == *y,
            _ => false,
        },
        Token::Identifier(x) => match b {
            Token::Identifier(y) => *x == *y,
            _ => false,
        },
        Token::Symbol(x) => match b {
            Token::Symbol(y) => *x == *y,
            _ => false,
        },
        Token::Block(x) => match b {
            Token::Block(y) => same_tokens(x, y),
            _ => false,
        },
        Token::Array(x) => match b {
            Token::Array(y) => same_lists(x, y),
            _ => false,
        },
        Token::Repeat(x) => match b {
            Token::Repeat(y) => same_tokens(x, y),
            _ => false,
        },
        Token::Return(x) => match b {
            Token::Return(y) => same_tokens(x, y),
            _ => false,
        },
        Token::Include(x) => match b {
            Token::Include(y) => *x == *y,
            _ => false,
        },
        Token::If(x) => match b {
            Token::If(y) => same_tokens(x, y),
            _ => false,
        },
        Token::Else => match b {
            Token::Else => true,
            _ => false,
        },
        Token::Nothing => match b {
            Token::Nothing => true,
            _ => false,
        },
    }
}

/// Decides whether two token lists have the same models.
pub fn same_tokens(a: &Vec<Token>, b: &Vec<Token>) -> (r: bool)
    ensures
        r == (seq_view(a@) == seq_view(b@)),
    decreases a,
{
    if a.len() != b.len() {
        assert(seq_view(a@).len() != seq_view(b@).len());
        return false;
    }
    let mut i: usize = 0;
    while i < a.len()
        invariant
            a@.len() == b@.len(),
            i <= a@.len(),
            forall|j: int| 0 <= j < i ==> #[trigger] seq_view(a@)[j] == seq_view(b@)[j],
        decreases a.len() - i,
    {
        proof {
            assert(decreases_to!(a => a@[i as int]));
        }
        if !same_token(&a[i], &b[i]) {
            assert(seq_view(a@)[i as int] != seq_view(b@)[i as int]);
            return false;
        }
        i = i + 1;
    }
    assert(seq_view(a@) =~= seq_view(b@));
    true
}

/// Decides whether two lists of token lists have the same models.
pub fn same_lists(a: &Vec<Vec<Token>>, b: &Vec<Vec<Token>>) -> (r: bool)
    ensures
        r == (seqs_view(a@) == seqs_view(b@)),
    decreases a,
{
    if a.len() != b.len() {
        assert(seqs_view(a@).len() != seqs_view(b@).len());
        return false;
    }
    let mut i: usize = 0;
    while i < a.len()
        invariant
            a@.len() == b@.len(),
            i <= a@.len(),
            forall|j: int| 0 <= j < i ==> #[trigger] seqs_view(a@)[j] == seqs_view(b@)[j],
        decreases a.len() - i,
    {
        proof {
            assert(decreases_to!(a => a@[i as int]));
        }
        if !same_tokens(&a[i], &b[i]) {
            assert(seqs_view(a@)[i as int] != seqs_view(b@)[i as int]);
            return false;
        }
        i = i + 1;
    }
    assert(seqs_view(a@) =~= seqs_view(b@));
    true
}

} // verus!
