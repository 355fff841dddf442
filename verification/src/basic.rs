use vstd::prelude::*;
use crate::float::{ask_parse, kernel_ok, parse_float, FloatAnswer, FloatQuery};
use crate::number::{parse_isize, parse_isize_spec};
use crate::text::{alphabetic_char, chars_equal_str, chars_to_string, is_alphabetic, is_numeric, numeric_char, sub_chars};
use crate::token::FakeFloat;
use crate::tokenizer::{
    find_char, find_identifier_end, find_number_end, lemma_scan_char, lemma_scan_identifier, lemma_scan_number,
    scan_char, scan_identifier, scan_number, Scan, ScanEnd,
};

verus! {

/// The operators of the plain tokenizer.
#[derive(Debug, PartialEq, Eq, Clone, Copy, Structural)]
pub enum Symbol {
    Equal,
    Plus,
    Minus,
    Multiply,
    Divide,
}

/// A token of the plain tokenizer.
#[derive(Debug)]
pub enum Token {
    Integer(isize),
    Float(FakeFloat),
    String(String),
    Boolean(bool),
    Identifier(String),
    Symbol(Symbol),
}

/// The model of a plain token.
pub enum TokenView {
    Integer(isize),
    Float(FakeFloat),
    String(Seq<char>),
    Boolean(bool),
    Identifier(Seq<char>),
    Symbol(Symbol),
}

impl View for Token {
    type V = TokenView;

    open spec fn view(&self) -> TokenView {
        match self {
            Token::Integer(n) => TokenView::Integer(*n),
            Token::Float(f) => TokenView::Float(*f),
            Token::String(s) => TokenView::String(s@),
            Token::Boolean(b) => TokenView::Boolean(*b),
            Token::Identifier(s) => TokenView::Identifier(s@),
            Token::Symbol(s) => TokenView::Symbol(*s),
        }
    }
}

/// The models of a list of plain tokens.
pub open spec fn views(s: Seq<Token>) -> Seq<TokenView> {
    Seq::new(s.len(), |i: int| s[i]@)
}

/// Why the plain tokenizer stops without tokens: it would index past the end
/// or reject a literal (`Fault`), or it would loop for ever at a character
/// that no rule takes (`Stuck`).
#[derive(Debug, PartialEq, Eq, Clone, Copy, Structural)]
pub enum BasicError {
    Fault,
    Stuck,
}

/// One round of the plain tokenizer: go on at a position with the tokens
/// so far, or stop with an error.
pub enum BasicStep {
    Next(int, Seq<TokenView>),
    Fail(BasicError),
}

/// A string literal, when `c` is `"`: up to the closing quote; the end of
/// the code before it is a fault.
pub open spec fn basic_quote(code: Seq<char>, c: char, i: int, toks: Seq<TokenView>) -> BasicStep {
    if c == '"' {
        match scan_char(code, i + 1, '"') {
            Scan::At(e) => BasicStep::Next(e + 1, toks.push(TokenView::String(code.subrange(i + 1, e)))),
            _ => BasicStep::Fail(BasicError::Fault),
        }
    } else {
        BasicStep::Next(i, toks)
    }
}

/// `true` or `false`, when `c` is `t` or `f`; another word is left for the
/// identifier rule.
pub open spec fn basic_bool(code: Seq<char>, c: char, i: int, toks: Seq<TokenView>) -> BasicStep {
    if c == 't' || c == 'f' {
        match scan_identifier(code, i + 1) {
            Scan::At(e) => {
                let w = code.subrange(i, e);
                if w == "true"@ {
                    BasicStep::Next(e, toks.push(TokenView::Boolean(true)))
                } else if w == "false"@ {
                    BasicStep::Next(e, toks.push(TokenView::Boolean(false)))
                } else {
                    BasicStep::Next(i, toks)
                }
            },
            _ => BasicStep::Fail(BasicError::Fault),
        }
    } else {
        BasicStep::Next(i, toks)
    }
}

/// An identifier, when `c` is a letter: the character at `i` and the letters
/// after it.
pub open spec fn basic_ident(code: Seq<char>, c: char, i: int, toks: Seq<TokenView>) -> BasicStep {
    if alphabetic_char(c) {
        match scan_identifier(code, i + 1) {
            Scan::At(e) => BasicStep::Next(e, toks.push(TokenView::Identifier(code.subrange(i, e)))),
            _ => BasicStep::Fail(BasicError::Fault),
        }
    } else {
        BasicStep::Next(i, toks)
    }
}

/// The operator that `c` stands for, if any.
pub open spec fn basic_symbol(c: char) -> Option<Symbol> {
    if c == '=' {
        Some(Symbol::Equal)
    } else if c == '+' {
        Some(Symbol::Plus)
    } else if c == '-' {
        Some(Symbol::Minus)
    } else if c == '*' {
        Some(Symbol::Multiply)
    } else if c == '/' {
        Some(Symbol::Divide)
    } else {
        None
    }
}

/// A number literal at `i`: an integer without `.`, a float with one; more
/// dots, or a literal that does not parse, is a fault.
pub open spec fn basic_number<K: Fn(FloatQuery) -> FloatAnswer>(
    k: K,
    code: Seq<char>,
    i: int,
    toks: Seq<TokenView>,
) -> BasicStep {
    match scan_number(code, i, 0) {
        None => BasicStep::Fail(BasicError::Fault),
        Some((e, dots)) => {
            let num = code.subrange(i, e);
            if dots == 0 {
                match parse_isize_spec(num) {
                    None => BasicStep::Fail(BasicError::Fault),
                    Some(n) => BasicStep::Next(e, toks.push(TokenView::Integer(n))),
                }
            } else if dots == 1 {
                match parse_float(k, num) {
                    None => BasicStep::Fail(BasicError::Fault),
                    Some(f) => BasicStep::Next(e, toks.push(TokenView::Float(f))),
                }
            } else {
                BasicStep::Fail(BasicError::Fault)
            }
        },
    }
}

/// One round at the character `code[i]`: spaces are skipped, numbers are
/// read; else the string, boolean, identifier and operator rules are tried
/// in turn, each from where the one before left off.
pub open spec fn basic_round<K: Fn(FloatQuery) -> FloatAnswer>(
    k: K,
    code: Seq<char>,
    i: int,
    toks: Seq<TokenView>,
) -> BasicStep {
    let c = code[i];
    if c == ' ' {
        BasicStep::Next(i + 1, toks)
    } else if numeric_char(c) {
        basic_number(k, code, i, toks)
    } else {
        match basic_quote(code, c, i, toks) {
            BasicStep::Fail(e) => BasicStep::Fail(e),
            BasicStep::Next(i1, t1) => match basic_bool(code, c, i1, t1) {
                BasicStep::Fail(e) => BasicStep::Fail(e),
                BasicStep::Next(i2, t2) => match basic_ident(code, c, i2, t2) {
                    BasicStep::Fail(e) => BasicStep::Fail(e),
                    BasicStep::Next(i3, t3) => match basic_symbol(c) {
                        Some(s) => BasicStep::Next(i3 + 1, t3.push(TokenView::Symbol(s))),
                        None => BasicStep::Next(i3, t3),
                    },
                },
            },
        }
    }
}

/// The plain tokenizer from position `i` with the tokens `toks` so far: it
/// stops at `'\0'`; running past the end is a fault, and a round that does
/// not move on would repeat for ever.
pub open spec fn basic_loop<K: Fn(FloatQuery) -> FloatAnswer>(
    k: K,
    code: Seq<char>,
    i: int,
    toks: Seq<TokenView>,
) -> Result<Seq<TokenView>, BasicError>
    decreases code.len() - i,
{
    if i < 0 || i >= code.len() {
        Err(BasicError::Fault)
    } else if code[i] == '\0' {
        Ok(toks)
    } else {
        match basic_round(k, code, i, toks) {
            BasicStep::Fail(e) => Err(e),
            BasicStep::Next(i2, t2) => if i2 <= i {
                Err(BasicError::Stuck)
            } else if i2 > code.len() {
                Err(BasicError::Fault)
            } else {
                basic_loop(k, code, i2, t2)
            },
        }
    }
}

fn push_token(toks: &mut Vec<Token>, t: Token)
    ensures
        views(final(toks)@) == views(old(toks)@).push(t@),
{
    toks.push(t);
    assert(views(toks@) =~= views(old(toks)@).push(t@));
}

fn text(code: &Vec<char>, start: usize, end: usize) -> (r: String)
    requires
        start <= end <= code@.len(),
    ensures
        r@ == code@.subrange(start as int, end as int),
{
    chars_to_string(&sub_chars(code, start, end))
}

fn step_quote(code: &Vec<char>, c: char, i: usize, toks: &mut Vec<Token>) -> (r: Result<usize, BasicError>)
    requires
        i < code@.len() < usize::MAX,
    ensures
        match basic_quote(code@, c, i as int, views(old(toks)@)) {
            BasicStep::Next(i2, t2) => r == Ok::<usize, BasicError>(i2 as usize) && 0 <= i2 <= code@.len() && t2 == views(final(toks)@),
            BasicStep::Fail(e) => r == Err::<usize, BasicError>(e),
        },
{
    if c != '"' {
        return Ok(i);
    }
    match find_char(code, i + 1, '"') {
        ScanEnd::At(e) => {
            proof {
                lemma_scan_char(code@, i + 1, '"');
            }
            push_token(toks, Token::String(text(code, i + 1, e)));
            Ok(e + 1)
        },
        _ => Err(BasicError::Fault),
    }
}

fn step_bool(code: &Vec<char>, c: char, i: usize, toks: &mut Vec<Token>) -> (r: Result<usize, BasicError>)
    requires
        i <= code@.len() < usize::MAX,
    ensures
        match basic_bool(code@, c, i as int, views(old(toks)@)) {
            BasicStep::Next(i2, t2) => r == Ok::<usize, BasicError>(i2 as usize) && 0 <= i2 <= code@.len() && t2 == views(final(toks)@),
            BasicStep::Fail(e) => r == Err::<usize, BasicError>(e),
        },
{
    if c != 't' && c != 'f' {
        return Ok(i);
    }
    match find_identifier_end(code, i + 1) {
        ScanEnd::At(e) => {
            proof {
                lemma_scan_identifier(code@, i + 1);
            }
            let w = sub_chars(code, i, e);
            if chars_equal_str(&w, "true") {
                push_token(toks, Token::Boolean(true));
                Ok(e)
            } else if chars_equal_str(&w, "false") {
                push_token(toks, Token::Boolean(false));
                Ok(e)
            } else {
                Ok(i)
            }
        },
        _ => Err(BasicError::Fault),
    }
}

fn step_ident(code: &Vec<char>, c: char, i: usize, toks: &mut Vec<Token>) -> (r: Result<usize, BasicError>)
    requires
        i <= code@.len() < usize::MAX,
    ensures
        match basic_ident(code@, c, i as int, views(old(toks)@)) {
            BasicStep::Next(i2, t2) => r == Ok::<usize, BasicError>(i2 as usize) && 0 <= i2 <= code@.len() && t2 == views(final(toks)@),
            BasicStep::Fail(e) => r == Err::<usize, BasicError>(e),
        },
{
    if !is_alphabetic(c) {
        return Ok(i);
    }
    match find_identifier_end(code, i + 1) {
        ScanEnd::At(e) => {
            proof {
                lemma_scan_identifier(code@, i + 1);
            }
            push_token(toks, Token::Identifier(text(code, i, e)));
            Ok(e)
        },
        _ => Err(BasicError::Fault),
    }
}

fn symbol_of(c: char) -> (r: Option<Symbol>)
    ensures
        r == basic_symbol(c),
{
    if c == '=' {
        Some(Symbol::Equal)
    } else if c == '+' {
        Some(Symbol::Plus)
    } else if c == '-' {
        Some(Symbol::Minus)
    } else if c == '*' {
        Some(Symbol::Multiply)
    } else if c == '/' {
        Some(Symbol::Divide)
    } else {
        None
    }
}

fn step_number<K: Fn(FloatQuery) -> FloatAnswer>(
    k: &K,
    code: &Vec<char>,
    i: usize,
    toks: &mut Vec<Token>,
) -> (r: Result<usize, BasicError>)
    requires
        kernel_ok(*k),
        i < code@.len() < usize::MAX,
    ensures
        match basic_number(*k, code@, i as int, views(old(toks)@)) {
            BasicStep::Next(i2, t2) => r == Ok::<usize, BasicError>(i2 as usize) && 0 <= i2 <= code@.len() && t2 == views(final(toks)@),
            BasicStep::Fail(e) => r == Err::<usize, BasicError>(e),
        },
{
    match find_number_end(code, i) {
        None => Err(BasicError::Fault),
        Some((e, dots)) => {
            proof {
                lemma_scan_number(code@, i as int, 0);
            }
            let num = sub_chars(code, i, e);
            if dots == 0 {
                match parse_isize(&num) {
                    None => Err(BasicError::Fault),
                    Some(n) => {
                        push_token(toks, Token::Integer(n));
                        Ok(e)
                    },
                }
            } else if dots == 1 {
                match ask_parse(k, &num) {
                    None => Err(BasicError::Fault),
                    Some(f) => {
                        push_token(toks, Token::Float(f));
                        Ok(e)
                    },
                }
            } else {
                Err(BasicError::Fault)
            }
        },
    }
}

fn step_round<K: Fn(FloatQuery) -> FloatAnswer>(
    k: &K,
    code: &Vec<char>,
    i: usize,
    toks: &mut Vec<Token>,
) -> (r: Result<usize, BasicError>)
    requires
        kernel_ok(*k),
        i < code@.len() < usize::MAX,
    ensures
        match basic_round(*k, code@, i as int, views(old(toks)@)) {
            BasicStep::Next(i2, t2) => r == Ok::<usize, BasicError>(i2 as usize) && 0 <= i2 <= code@.len() + 1
                && t2 == views(final(toks)@),
            BasicStep::Fail(e) => r == Err::<usize, BasicError>(e),
        },
{
    let c = code[i];
    if c == ' ' {
        return Ok(i + 1);
    }
    if is_numeric(c) {
        return step_number(k, code, i, toks);
    }
    let i1 = match step_quote(code, c, i, toks) {
        Err(e) => {
            return Err(e);
        },
        Ok(j) => j,
    };
    let i2 = match step_bool(code, c, i1, toks) {
        Err(e) => {
            return Err(e);
        },
        Ok(j) => j,
    };
    let i3 = match step_ident(code, c, i2, toks) {
        Err(e) => {
            return Err(e);
        },
        Ok(j) => j,
    };
    match symbol_of(c) {
        Some(s) => {
            push_token(toks, Token::Symbol(s));
            Ok(i3 + 1)
        },
        None => Ok(i3),
    }
}

/// The tokens of `code` as the plain tokenizer reads them, as `basic_loop`
/// says from the start; number literals with a `.` are parsed by the float
/// kernel `floats`.
pub fn tokenizer<K: Fn(FloatQuery) -> FloatAnswer>(code: Vec<char>, floats: &K) -> (r: Result<Vec<Token>, BasicError>)
    requires
        kernel_ok(*floats),
        code@.len() < usize::MAX,
    ensures
        match r {
            Ok(ts) => basic_loop(*floats, code@, 0, Seq::empty()) == Ok::<Seq<TokenView>, BasicError>(views(ts@)),
            Err(e) => basic_loop(*floats, code@, 0, Seq::empty()) == Err::<Seq<TokenView>, BasicError>(e),
        },
{
    let mut tokens: Vec<Token> = Vec::new();
    let mut i: usize = 0;
    assert(views(tokens@) =~= Seq::<TokenView>::empty());
    loop
        invariant
            kernel_ok(*floats),
            code@.len() < usize::MAX,
            i <= code@.len(),
            basic_loop(*floats, code@, 0, Seq::empty()) == basic_loop(*floats, code@, i as int, views(tokens@)),
        decreases code@.len() - i,
    {
        if i >= code.len() {
            return Err(BasicError::Fault);
        }
        if code[i] == '\0' {
            return Ok(tokens);
        }
        match step_round(floats, &code, i, &mut tokens) {
            Err(e) => {
                return Err(e);
            },
            Ok(i2) => {
                if i2 <= i {
                    return Err(BasicError::Stuck);
                }
                if i2 > code.len() {
                    return Err(BasicError::Fault);
                }
                i = i2;
            },
        }
    }
}

} // verus!
