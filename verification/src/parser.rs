use vstd::prelude::*;
use crate::float::{ask_debug_text, float_debug_text, kernel_ok, FloatAnswer, FloatQuery};
use crate::number::{int_text, isize_text};
use crate::text::{chars_equal_str, concat_chars, str_chars, string_chars};
use crate::token::{seq_view, seqs_view, Token, TokenView};

verus! {

/// The `Debug` text (`{:?}`) of a string: the string in double quotes, with
/// the escapes that `str`'s `Debug` formatting writes (a double quote, a
/// backslash and control characters among them; a single quote is left as
/// it is).
pub uninterp spec fn string_debug(s: Seq<char>) -> Seq<char>;

/// Calls `format!("{:?}", s)` on a string; the result is named
/// `string_debug(s)`.
#[verifier::external_body]
fn debug_string(s: &String) -> (r: String)
    ensures
        r@ == string_debug(s@),
{
    format!("{:?}", s)
}

/// The `Debug` text (`{:?}`) of the values that `parse` gives: the variant
/// name and its value in brackets.
pub open spec fn debug_text<K: Fn(FloatQuery) -> FloatAnswer>(k: K, t: TokenView) -> Seq<char> {
    match t {
        TokenView::Integer(n) => "Integer("@ + int_text(n as int) + ")"@,
        TokenView::Float(f) => "Float(FakeFloat("@ + float_debug_text(k, f) + "))"@,
        TokenView::String(s) => "String("@ + string_debug(s) + ")"@,
        TokenView::Boolean(b) => if b {
            "Boolean(true)"@
        } else {
            "Boolean(false)"@
        },
        TokenView::Identifier(s) => "Identifier("@ + string_debug(s) + ")"@,
        _ => Seq::empty(),
    }
}

/// What `parse` gives of `tokens`, after the output `out`: the first number,
/// string, boolean or identifier (zero where there is none), and the output
/// with, for each `prnt` call passed on the way, one line per argument
/// holding the `Debug` text of what `parse` gives of that argument.
pub open spec fn parse_seq<K: Fn(FloatQuery) -> FloatAnswer>(
    k: K,
    tokens: Seq<TokenView>,
    out: Seq<char>,
) -> (TokenView, Seq<char>)
    decreases tokens,
{
    if tokens.len() == 0 {
        (TokenView::Integer(0), out)
    } else {
        let rest = tokens.subrange(1, tokens.len() as int);
        match tokens[0] {
            TokenView::Integer(_) | TokenView::Float(_) | TokenView::String(_) | TokenView::Boolean(_)
            | TokenView::Identifier(_) => (tokens[0], out),
            TokenView::Function(name, args) => {
                let out2 = if name == "prnt"@ {
                    debug_lines(k, args, out)
                } else {
                    out
                };
                parse_seq(k, rest, out2)
            },
            _ => parse_seq(k, rest, out),
        }
    }
}

/// The output of `prnt` inside `parse`: for each argument, what parsing it
/// prints, then the `Debug` text of its value and a line break.
pub open spec fn debug_lines<K: Fn(FloatQuery) -> FloatAnswer>(
    k: K,
    args: Seq<Seq<TokenView>>,
    out: Seq<char>,
) -> Seq<char>
    decreases args,
{
    if args.len() == 0 {
        out
    } else {
        let (v, out2) = parse_seq(k, args[0], out);
        debug_lines(k, args.subrange(1, args.len() as int), out2 + debug_text(k, v) + seq!['\n'])
    }
}

fn debug_of<K: Fn(FloatQuery) -> FloatAnswer>(k: &K, t: &Token) -> (r: Vec<char>)
    requires
        kernel_ok(*k),
    ensures
        r@ == debug_text(*k, t@),
{
    match t {
        Token::Integer(n) => {
            let v = concat_chars(&str_chars("Integer("), &isize_text(*n));
            concat_chars(&v, &str_chars(")"))
        },
        Token::Float(f) => {
            let v = concat_chars(&str_chars("Float(FakeFloat("), &ask_debug_text(k, *f));
            concat_chars(&v, &str_chars("))"))
        },
        Token::String(s) => {
            let v = concat_chars(&str_chars("String("), &string_chars(&debug_string(s)));
            concat_chars(&v, &str_chars(")"))
        },
        Token::Boolean(b) => if *b {
            str_chars("Boolean(true)")
        } else {
            str_chars("Boolean(false)")
        },
        Token::Identifier(s) => {
            let v = concat_chars(&str_chars("Identifier("), &string_chars(&debug_string(s)));
            concat_chars(&v, &str_chars(")"))
        },
        _ => Vec::new(),
    }
}

fn parse_tokens<K: Fn(FloatQuery) -> FloatAnswer>(k: &K, tokens: &Vec<Token>, out: &mut Vec<char>) -> (r: Token)
    requires
        kernel_ok(*k),
    ensures
        (r@, final(out)@) == parse_seq(*k, seq_view(tokens@), old(out)@),
    decreases tokens,
{
    let ghost tv = seq_view(tokens@);
    let ghost target = parse_seq(*k, tv, old(out)@);
    let mut i: usize = 0;
    proof {
        assert(tv.subrange(0, tv.len() as int) =~= tv);
    }
    while i < tokens.len()
        invariant
            kernel_ok(*k),
            tv == seq_view(tokens@),
            tv.len() == tokens@.len(),
            i <= tokens@.len(),
            target == parse_seq(*k, tv, old(out)@),
            target == parse_seq(*k, tv.subrange(i as int, tv.len() as int), out@),
        decreases tokens.len() - i,
    {
        let ghost rest = tv.subrange(i as int, tv.len() as int);
        proof {
            assert(rest[0] == tokens@[i as int]@);
            assert(rest.subrange(1, rest.len() as int) =~= tv.subrange(i + 1, tv.len() as int));
            assert(decreases_to!(tokens => tokens@[i as int]));
        }
        match &tokens[i] {
            Token::Integer(n) => {
                return Token::Integer(*n);
            },
            Token::Float(f) => {
                return Token::Float(*f);
            },
            Token::String(s) => {
                return Token::String(s.clone());
            },
            Token::Boolean(b) => {
                return Token::Boolean(*b);
            },
            Token::Identifier(s) => {
                return Token::Identifier(s.clone());
            },
            Token::Function(name, args) => {
                if chars_equal_str(&string_chars(name), "prnt") {
                    print_args(k, args, out);
                }
            },
            _ => {},
        }
        i = i + 1;
    }
    proof {
        assert(tv.subrange(i as int, tv.len() as int) =~= Seq::<TokenView>::empty());
    }
    Token::Integer(0)
}

fn print_args<K: Fn(FloatQuery) -> FloatAnswer>(k: &K, args: &Vec<Vec<Token>>, out: &mut Vec<char>)
    requires
        kernel_ok(*k),
    ensures
        final(out)@ == debug_lines(*k, seqs_view(args@), old(out)@),
    decreases args,
{
    let ghost av = seqs_view(args@);
    let mut j: usize = 0;
    proof {
        assert(av.subrange(0, av.len() as int) =~= av);
    }
    while j < args.len()
        invariant
            kernel_ok(*k),
            av == seqs_view(args@),
            av.len() == args@.len(),
            j <= args@.len(),
            debug_lines(*k, av, old(out)@) == debug_lines(*k, av.subrange(j as int, av.len() as int), out@),
        decreases args.len() - j,
    {
        let ghost rest = av.subrange(j as int, av.len() as int);
        proof {
            assert(rest[0] == seq_view(args@[j as int]@));
            assert(rest.subrange(1, rest.len() as int) =~= av.subrange(j + 1, av.len() as int));
            assert(decreases_to!(args => args@[j as int]));
        }
        let v = parse_tokens(k, &args[j], out);
        let text = debug_of(k, &v);
        let ghost before = out@;
        let mut m: usize = 0;
        while m < text.len()
            invariant
                m <= text@.len(),
                out@ == before + text@.subrange(0, m as int),
            decreases text.len() - m,
        {
            out.push(text[m]);
            m = m + 1;
            assert(out@ =~= before + text@.subrange(0, m as int));
        }
        out.push('\n');
        proof {
            assert(text@.subrange(0, text@.len() as int) =~= text@);
            assert(out@ =~= before + text@ + seq!['\n']);
        }
        j = j + 1;
    }
    proof {
        assert(av.subrange(j as int, av.len() as int) =~= Seq::<Seq<TokenView>>::empty());
    }
}

/// Gives the first number, string, boolean or identifier of `tokens` (zero
/// where there is none); each `prnt` call passed on the way appends, for
/// each of its arguments, the `Debug` text of what parsing that argument
/// gives and a line break to `out`. See `parse_seq`.
pub fn parse<K: Fn(FloatQuery) -> FloatAnswer>(tokens: Vec<Token>, floats: &K, out: &mut Vec<char>) -> (r: Token)
    requires
        kernel_ok(*floats),
    ensures
        (r@, final(out)@) == parse_seq(*floats, seq_view(tokens@), old(out)@),
{
    parse_tokens(floats, &tokens, out)
}

} // verus!
