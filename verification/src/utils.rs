use vstd::prelude::*;
use crate::float::{kernel_ok, FloatAnswer, FloatQuery};
use crate::token::{Token, TokenView};
use crate::value::{same_token, token_eq, tokens_equal};

verus! {

/// A list of function tokens.
pub struct Function {
    functions: Vec<Token>,
}

impl View for Function {
    type V = Seq<TokenView>;

    closed spec fn view(&self) -> Seq<TokenView> {
        Seq::new(self.functions@.len(), |i: int| self.functions@[i]@)
    }
}

/// The position of the first function token in `s`, from `i` on.
pub open spec fn first_function(s: Seq<TokenView>, i: int) -> Option<int>
    decreases s.len() - i,
{
    if i < 0 || i >= s.len() {
        None
    } else if s[i] is Function {
        Some(i)
    } else {
        first_function(s, i + 1)
    }
}

/// The number of arguments of a function token (zero for any other token).
pub open spec fn arg_count(t: TokenView) -> int {
    match t {
        TokenView::Function(_, args) => args.len() as int,
        _ => 0,
    }
}

impl Function {
    /// An empty list.
    pub fn new() -> (r: Function)
        ensures
            r@ == Seq::<TokenView>::empty(),
    {
        let r = Function { functions: Vec::new() };
        assert(r@ =~= Seq::<TokenView>::empty());
        r
    }

    /// Appends a function.
    pub fn add(&mut self, function: Token)
        ensures
            final(self)@ == old(self)@.push(function@),
    {
        self.functions.push(function);
        assert(self@ =~= old(self)@.push(function@));
    }

    /// Whether `function` is a function token and the list holds some
    /// function (the name is not compared).
    pub fn get(&self, function: Token) -> (r: bool)
        ensures
            r == (function@ is Function && first_function(self@, 0) is Some),
    {
        let is_fn = match &function {
            Token::Function(_, _) => true,
            _ => false,
        };
        if !is_fn {
            return false;
        }
        match self.first(0) {
            Some(_) => true,
            None => false,
        }
    }

    /// Whether `function` is a function token whose number of arguments
    /// is that of the first function of the list (false when the list holds
    /// none).
    pub fn can_use(&self, function: Token) -> (r: bool)
        ensures
            r == (function@ is Function && match first_function(self@, 0) {
                Some(i) => arg_count(self@[i]) == arg_count(function@),
                None => false,
            }),
    {
        match &function {
            Token::Function(_, args) => match self.first(0) {
                Some(i) => match &self.functions[i] {
                    Token::Function(_, a) => a.len() == args.len(),
                    _ => false,
                },
                None => false,
            },
            _ => false,
        }
    }

    fn first(&self, start: usize) -> (r: Option<usize>)
        requires
            start <= self.functions@.len(),
        ensures
            match r {
                Some(i) => first_function(self@, start as int) == Some(i as int) && i < self.functions@.len()
                    && self.functions@[i as int]@ is Function,
                None => first_function(self@, start as int) is None,
            },
        decreases self.functions@.len() - start,
    {
        if start >= self.functions.len() {
            return None;
        }
        assert(self@[start as int] == self.functions@[start as int]@);
        match &self.functions[start] {
            Token::Function(_, _) => Some(start),
            _ => self.first(start + 1),
        }
    }
}

/// Whether a stored key is found by a lookup of `key`: the same model
/// (floats by bit pattern, as they are hashed) and equal under `==` (so a
/// key holding `NaN` is never found).
pub open spec fn key_match<K: Fn(FloatQuery) -> FloatAnswer>(k: K, stored: TokenView, key: TokenView) -> bool {
    stored == key && token_eq(k, stored, key)
}

/// The position of the first entry from `i` on whose key `key` finds.
pub open spec fn find_entry<K: Fn(FloatQuery) -> FloatAnswer>(
    k: K,
    s: Seq<(TokenView, TokenView)>,
    key: TokenView,
    i: int,
) -> Option<int>
    decreases s.len() - i,
{
    if i < 0 || i >= s.len() {
        None
    } else if key_match(k, s[i].0, key) {
        Some(i)
    } else {
        find_entry(k, s, key, i + 1)
    }
}

/// The entries after binding `key` to `value`: the entry that `key` finds
/// gets the new value; where there is none, a new entry comes last.
pub open spec fn added_entry<K: Fn(FloatQuery) -> FloatAnswer>(
    k: K,
    s: Seq<(TokenView, TokenView)>,
    key: TokenView,
    value: TokenView,
) -> Seq<(TokenView, TokenView)> {
    match find_entry(k, s, key, 0) {
        Some(i) => s.update(i, (s[i].0, value)),
        None => s.push((key, value)),
    }
}

/// The value of the entry that `key` finds, if any.
pub open spec fn looked_up<K: Fn(FloatQuery) -> FloatAnswer>(
    k: K,
    s: Seq<(TokenView, TokenView)>,
    key: TokenView,
) -> Option<TokenView> {
    match find_entry(k, s, key, 0) {
        Some(i) => Some(s[i].1),
        None => None,
    }
}

/// A map from tokens to tokens, kept as its entries in the order they were
/// added. A key finds an entry whose key has the same model and equals it
/// under `==`; keys equal under `==` with other bit patterns (`0.0` and
/// `-0.0`) are kept apart, as their hashes almost always keep them apart in
/// a hash map.
pub struct Variable {
    variables: Vec<(Token, Token)>,
}

impl View for Variable {
    type V = Seq<(TokenView, TokenView)>;

    closed spec fn view(&self) -> Seq<(TokenView, TokenView)> {
        Seq::new(self.variables@.len(), |i: int| (self.variables@[i].0@, self.variables@[i].1@))
    }
}

impl Variable {
    /// An empty map.
    pub fn new() -> (r: Variable)
        ensures
            r@ == Seq::<(TokenView, TokenView)>::empty(),
    {
        let r = Variable { variables: Vec::new() };
        assert(r@ =~= Seq::<(TokenView, TokenView)>::empty());
        r
    }

    fn find<K: Fn(FloatQuery) -> FloatAnswer>(&self, floats: &K, key: &Token) -> (r: Option<usize>)
        requires
            kernel_ok(*floats),
        ensures
            match r {
                Some(i) => find_entry(*floats, self@, key@, 0) == Some(i as int) && i < self.variables@.len(),
                None => find_entry(*floats, self@, key@, 0) is None,
            },
    {
        let ghost s = self@;
        let mut i: usize = 0;
        while i < self.variables.len()
            invariant
                kernel_ok(*floats),
                s == self@,
                s.len() == self.variables@.len(),
                i <= s.len(),
                find_entry(*floats, s, key@, 0) == find_entry(*floats, s, key@, i as int),
            decreases self.variables.len() - i,
        {
            assert(s[i as int] == (self.variables@[i as int].0@, self.variables@[i as int].1@));
            if same_token(&self.variables[i].0, key) && tokens_equal(floats, &self.variables[i].0, key) {
                return Some(i);
            }
            i = i + 1;
        }
        None
    }

    /// Binds `variable` to `value`: the entry that `variable` finds gets the
    /// new value; where there is none, a new entry comes last.
    pub fn add<K: Fn(FloatQuery) -> FloatAnswer>(&mut self, variable: Token, value: Token, floats: &K)
        requires
            kernel_ok(*floats),
        ensures
            final(self)@ == added_entry(*floats, old(self)@, variable@, value@),
    {
        match self.find(floats, &variable) {
            Some(i) => {
                let key = self.variables[i].0.duplicate();
                self.variables.set(i, (key, value));
                assert(self@ =~= old(self)@.update(i as int, (old(self)@[i as int].0, value@)));
            },
            None => {
                self.variables.push((variable, value));
                assert(self@ =~= old(self)@.push((variable@, value@)));
            },
        }
    }

    /// The value of the entry that `variable` finds, if any.
    pub fn get<K: Fn(FloatQuery) -> FloatAnswer>(&self, variable: Token, floats: &K) -> (r: Option<&Token>)
        requires
            kernel_ok(*floats),
        ensures
            match r {
                Some(t) => looked_up(*floats, self@, variable@) == Some(t@),
                None => looked_up(*floats, self@, variable@) is None,
            },
    {
        match self.find(floats, &variable) {
            Some(i) => Some(&self.variables[i].1),
            None => None,
        }
    }

    /// Whether `variable` finds an entry.
    pub fn can_use<K: Fn(FloatQuery) -> FloatAnswer>(&self, variable: Token, floats: &K) -> (r: bool)
        requires
            kernel_ok(*floats),
        ensures
            r == (looked_up(*floats, self@, variable@) is Some),
    {
        self.get(variable, floats).is_some()
    }
}

} // verus!
