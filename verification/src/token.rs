use vstd::prelude::*;

verus! {

/// Operator and punctuation symbols.
#[derive(Debug, PartialEq, Eq, Hash, Clone, Copy, Structural)]
pub enum Symbol {
    Equal,
    Plus,
    Minus,
    Multiply,
    Divide,
    Comma,
    Semicolon,
    Mod,
    Is,
    Greater,
    Less,
}

/// A floating point value, held as its IEEE-754 bit pattern.
#[derive(Debug, Clone, Copy, PartialEq, Eq, Hash, Structural)]
pub struct FakeFloat(pub u64);

/// A token (and, at run time, a value) of the language.
#[derive(Debug)]
pub enum Token {
    Integer(isize),
    Float(FakeFloat),
    String(String),
    Function(String, Vec<Vec<Token>>),
    Boolean(bool),
    Identifier(String),
    Symbol(Symbol),
    Block(Vec<Token>),
    Array(Vec<Vec<Token>>),
    Repeat(Vec<Token>),
    Return(Vec<Token>),
    Include(String),
    If(Vec<Token>),
    Else,
    Nothing,
}

/// The mathematical model of a token: strings are character sequences and
/// nested token lists are sequences of models.
pub enum TokenView {
    Integer(isize),
    Float(FakeFloat),
    String(Seq<char>),
    Function(Seq<char>, Seq<Seq<TokenView>>),
    Boolean(bool),
    Identifier(Seq<char>),
    Symbol(Symbol),
    Block(Seq<TokenView>),
    Array(Seq<Seq<TokenView>>),
    Repeat(Seq<TokenView>),
    Return(Seq<TokenView>),
    Include(Seq<char>),
    If(Seq<TokenView>),
    Else,
    Nothing,
}

/// The models of a sequence of tokens.
pub open spec fn seq_view(s: Seq<Token>) -> Seq<TokenView>
    decreases s,
{
    Seq::new(s.len(), |i: int| if 0 <= i < s.len() { s[i].view() } else { TokenView::Nothing })
}

/// The models of a sequence of token lists.
pub open spec fn seqs_view(s: Seq<Vec<Token>>) -> Seq<Seq<TokenView>>
    decreases s,
{
    Seq::new(s.len(), |i: int| if 0 <= i < s.len() { seq_view(s[i]@) } else { Seq::empty() })
}

impl View for Token {
    type V = TokenView;

    open spec fn view(&self) -> TokenView
        decreases self,
    {
        match self {
            Token::Integer(n) => TokenView::Integer(*n),
            Token::Float(f) => TokenView::Float(*f),
            Token::String(s) => TokenView::String(s@),
            Token::Function(name, args) => TokenView::Function(name@, seqs_view(args@)),
            Token::Boolean(b) => TokenView::Boolean(*b),
            Token::Identifier(s) => TokenView::Identifier(s@),
            Token::Symbol(s) => TokenView::Symbol(*s),
            Token::Block(v) => TokenView::Block(seq_view(v@)),
            Token::Array(v) => TokenView::Array(seqs_view(v@)),
            Token::Repeat(v) => TokenView::Repeat(seq_view(v@)),
            Token::Return(v) => TokenView::Return(seq_view(v@)),
            Token::Include(s) => TokenView::Include(s@),
            Token::If(v) => TokenView::If(seq_view(v@)),
            Token::Else => TokenView::Else,
            Token::Nothing => TokenView::Nothing,
        }
    }
}


/// Appending a token appends its model.
pub proof fn lemma_seq_view_push(s: Seq<Token>, t: Token)
    ensures
        seq_view(s.push(t)) == seq_view(s).push(t@),
{
    assert(seq_view(s.push(t)) =~= seq_view(s).push(t@));
}

/// A sequence and its models have the same length.
pub proof fn lemma_seq_view_len(s: Seq<Token>)
    ensures
        seq_view(s).len() == s.len(),
{
}

/// Appending a token list appends its models.
pub proof fn lemma_seqs_view_push(s: Seq<Vec<Token>>, v: Vec<Token>)
    ensures
        seqs_view(s.push(v)) == seqs_view(s).push(seq_view(v@)),
{
    assert(seqs_view(s.push(v)) =~= seqs_view(s).push(seq_view(v@)));
}

impl Token {
    /// A copy of the token with the same model.
    pub fn duplicate(&self) -> (r: Token)
        ensures
            r@ == self@,
        decreases self,
    {
        match self {
            Token::Integer(n) => Token::Integer(*n),
            Token::Float(f) => Token::Float(*f),
            Token::String(s) => Token::String(s.clone()),
            Token::Function(name, args) => Token::Function(name.clone(), copy_token_lists(args)),
            Token::Boolean(b) => Token::Boolean(*b),
            Token::Identifier(s) => Token::Identifier(s.clone()),
            Token::Symbol(s) => Token::Symbol(*s),
            Token::Block(v) => Token::Block(copy_tokens(v)),
            Token::Array(v) => Token::Array(copy_token_lists(v)),
            Token::Repeat(v) => Token::Repeat(copy_tokens(v)),
            Token::Return(v) => Token::Return(copy_tokens(v)),
            Token::Include(s) => Token::Include(s.clone()),
            Token::If(v) => Token::If(copy_tokens(v)),
            Token::Else => Token::Else,
            Token::Nothing => Token::Nothing,
        }
    }
}

/// A copy of a list of tokens with the same models.
pub fn copy_tokens(v: &Vec<Token>) -> (r: Vec<Token>)
    ensures
        seq_view(r@) == seq_view(v@),
    decreases v,
{
    let mut r: Vec<Token> = Vec::new();
    let mut i: usize = 0;
    while i < v.len()
        invariant
            i <= v.len(),
            r@.len() == i,
            forall|j: int| 0 <= j < i ==> (#[trigger] r@[j])@ == v@[j]@,
        decreases v.len() - i,
    {
        proof {
            assert(decreases_to!(v => v@[i as int]));
        }
        let t = v[i].duplicate();
        r.push(t);
        i = i + 1;
    }
    assert(seq_view(r@) =~= seq_view(v@));
    r
}

/// A copy of a list of token lists with the same models.
pub fn copy_token_lists(v: &Vec<Vec<Token>>) -> (r: Vec<Vec<Token>>)
    ensures
        seqs_view(r@) == seqs_view(v@),
    decreases v,
{
    let mut r: Vec<Vec<Token>> = Vec::new();
    let mut i: usize = 0;
    while i < v.len()
        invariant
            i <= v.len(),
            r@.len() == i,
            forall|j: int| 0 <= j < i ==> seq_view((#[trigger] r@[j])@) == seq_view(v@[j]@),
        decreases v.len() - i,
    {
        proof {
            assert(decreases_to!(v => v@[i as int]));
        }
        let t = copy_tokens(&v[i]);
        r.push(t);
        i = i + 1;
    }
    assert(seqs_view(r@) =~= seqs_view(v@));
    r
}

} // verus!
