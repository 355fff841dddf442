//! The evaluator and the calculators, proved to follow `semantics`.
use vstd::prelude::*;
use crate::calc::{calc_str, fi_arithmetic, EvalError, EvalErrorView};
use crate::class::{class_of, Class, ClassView};
use crate::env::Env;
use crate::float::{ask_order, ask_parse, kernel_ok, FloatAnswer, FloatOrder, FloatQuery};
use crate::number::{parse_isize, usize_text};
use crate::semantics::{
    Run, Step, class_text, eval_run, eval_from, eval_step, assign_step, call_step, prnt_from,
    if_cond, run_block_at, if_step, repeat_loop, repeat_step, block_fns, block_value, block_step,
    run_method_run, cwv_pass1, cwv_pass2, cwv, calc_fi_run, not_found_message, param_name,
    method_of, truthy, falsy, converted, compared, cwv_finish, prnt_values, replace_matching,
    rename_params, bind_params,
};
use crate::text::{chars_equal_str, chars_to_string, concat_chars, str_chars, string_chars, text_of};
use crate::token::{copy_tokens, seq_view, seqs_view, Symbol, Token, TokenView};
use crate::value::{
    resolve_token, resolve_tokens, resolved, substitute_variables, token_eq, tokens_equal,
    Bindings,
};

verus! {

/// The evaluation ended as the run says: the same output, and the same value
/// and variables or the same error.
pub open spec fn eval_result(r: Result<(Token, Env), EvalError>, out: Seq<char>, run: Run<(TokenView, Bindings)>) -> bool {
    &&& out == run.out
    &&& match r {
        Ok(p) => run.result == Ok::<(TokenView, Bindings), EvalErrorView>((p.0@, p.1@)),
        Err(e) => run.result == Err::<(TokenView, Bindings), EvalErrorView>(e@),
    }
}

/// The calculation ended as the run says: the same output, and the same
/// value or the same error.
pub open spec fn value_result(r: Result<Token, EvalError>, out: Seq<char>, run: Run<TokenView>) -> bool {
    &&& out == run.out
    &&& match r {
        Ok(t) => run.result == Ok::<TokenView, EvalErrorView>(t@),
        Err(e) => run.result == Err::<TokenView, EvalErrorView>(e@),
    }
}

/// The run ended as the model says, giving variables.
pub open spec fn env_result(r: Result<Env, EvalError>, out: Seq<char>, run: Run<Bindings>) -> bool {
    &&& out == run.out
    &&& match r {
        Ok(v) => run.result == Ok::<Bindings, EvalErrorView>(v@),
        Err(e) => run.result == Err::<Bindings, EvalErrorView>(e@),
    }
}

/// The run ended as the model says, giving nothing.
pub open spec fn unit_result(r: Result<(), EvalError>, out: Seq<char>, run: Run<()>) -> bool {
    &&& out == run.out
    &&& match r {
        Ok(_) => run.result is Ok,
        Err(e) => run.result == Err::<(), EvalErrorView>(e@),
    }
}

enum StepEnd {
    Next(usize, Token, Env),
    Stop(Result<(Token, Env), EvalError>),
}

spec fn step_result(s: StepEnd, out: Seq<char>, st: Step) -> bool {
    match s {
        StepEnd::Next(adv, t, v) => st == Step::Next(adv as nat, t@, v@, out),
        StepEnd::Stop(r) => match st {
            Step::Stop(run) => eval_result(r, out, run),
            _ => false,
        },
    }
}

fn append(out: &mut Vec<char>, text: &Vec<char>)
    ensures
        final(out)@ == old(out)@ + text@,
{
    let ghost start = out@;
    let mut i: usize = 0;
    while i < text.len()
        invariant
            i <= text@.len(),
            out@ == start + text@.subrange(0, i as int),
        decreases text.len() - i,
    {
        out.push(text[i]);
        i = i + 1;
        assert(out@ =~= start + text@.subrange(0, i as int));
    }
    assert(text@.subrange(0, text@.len() as int) =~= text@);
}

fn is_nothing(t: &Token) -> (r: bool)
    ensures
        r == (t@ == TokenView::Nothing),
{
    match t {
        Token::Nothing => true,
        _ => false,
    }
}

fn is_truthy(t: &Token) -> (r: bool)
    ensures
        r == truthy(t@),
{
    match t {
        Token::Boolean(b) => *b,
        Token::Integer(n) => *n != 0,
        _ => false,
    }
}

fn is_falsy(t: &Token) -> (r: bool)
    ensures
        r == falsy(t@),
{
    match t {
        Token::Boolean(b) => !*b,
        Token::Integer(n) => *n == 0,
        _ => false,
    }
}

fn single(t: &Token) -> (r: Vec<Token>)
    ensures
        seq_view(r@) == seq![t@],
{
    let r = vec![t.duplicate()];
    assert(seq_view(r@) =~= seq![t@]);
    r
}

fn method_name(op: Symbol) -> (r: String)
    ensures
        r@ == method_of(op),
{
    match op {
        Symbol::Plus => text_of("!!add!!"),
        Symbol::Minus => text_of("!!sub!!"),
        Symbol::Multiply => text_of("!!mul!!"),
        Symbol::Divide => text_of("!!div!!"),
        _ => text_of("!!mod!!"),
    }
}

fn rhs_args(next: Token) -> (r: Env)
    ensures
        r@ == Map::<Seq<char>, TokenView>::empty().insert("rhs"@, next@),
{
    let mut args = Env::new();
    args.insert(text_of("rhs"), next);
    args
}

fn param_string(n: usize) -> (r: String)
    ensures
        r@ == param_name(n as int),
{
    let mut v: Vec<char> = Vec::new();
    v.push('$');
    let v = concat_chars(&v, &usize_text(n));
    assert(v@ =~= param_name(n as int));
    chars_to_string(&v)
}

fn not_found(name: &String) -> (r: String)
    ensures
        r@ == not_found_message(name@),
{
    let v = concat_chars(&str_chars("Function "), &string_chars(name));
    let v = concat_chars(&v, &str_chars(" not found"));
    chars_to_string(&v)
}

fn converted_value<K: Fn(FloatQuery) -> FloatAnswer>(k: &K, formatted: Token) -> (r: Token)
    requires
        kernel_ok(*k),
    ensures
        r@ == converted(*k, formatted@),
{
    match formatted {
        Token::String(s) => {
            let v = string_chars(&s);
            if chars_equal_str(&v, "tru") {
                Token::Boolean(true)
            } else if chars_equal_str(&v, "falz") {
                Token::Boolean(false)
            } else {
                match parse_isize(&v) {
                    Some(n) => Token::Integer(n),
                    None => match ask_parse(k, &v) {
                        Some(x) => Token::Float(x),
                        None => Token::String(s),
                    },
                }
            }
        },
        t => t,
    }
}

fn compare_values<K: Fn(FloatQuery) -> FloatAnswer>(
    k: &K,
    l: &Token,
    r: &Token,
    want: FloatOrder,
    message: &str,
) -> (res: Result<Token, EvalError>)
    requires
        kernel_ok(*k),
    ensures
        match res {
            Ok(t) => compared(*k, l@, r@, want, message@) == Ok::<TokenView, EvalErrorView>(t@),
            Err(e) => compared(*k, l@, r@, want, message@) == Err::<TokenView, EvalErrorView>(e@),
        },
{
    match (l, r) {
        (Token::String(a), Token::String(b)) => {
            let x = ask_parse(k, &string_chars(a));
            let y = ask_parse(k, &string_chars(b));
            match (x, y) {
                (Some(x), Some(y)) => Ok(Token::Boolean(ask_order(k, x, y) == want)),
                _ => Err(EvalError::Reported(text_of(message))),
            }
        },
        _ => Ok(Token::Nothing),
    }
}

fn finish<K: Fn(FloatQuery) -> FloatAnswer>(k: &K, pending: &Vec<Token>, formatted: Token) -> (r: Result<Token, EvalError>)
    requires
        kernel_ok(*k),
    ensures
        match r {
            Ok(t) => cwv_finish(*k, seq_view(pending@), formatted@) == Ok::<TokenView, EvalErrorView>(t@),
            Err(e) => cwv_finish(*k, seq_view(pending@), formatted@) == Err::<TokenView, EvalErrorView>(e@),
        },
{
    let ghost pv = seq_view(pending@);
    if pending.len() > 0 {
        let ghost all = pv.push(formatted@);
        if pending.len() == 2 {
            assert(all[0] == pending@[0]@ && all[1] == pending@[1]@ && all[2] == formatted@);
            let is_is = match &pending[1] {
                Token::Symbol(Symbol::Is) => true,
                _ => false,
            };
            let is_greater = match &pending[1] {
                Token::Symbol(Symbol::Greater) => true,
                _ => false,
            };
            let is_less = match &pending[1] {
                Token::Symbol(Symbol::Less) => true,
                _ => false,
            };
            if is_is {
                Ok(Token::Boolean(tokens_equal(k, &pending[0], &formatted)))
            } else if is_greater {
                compare_values(k, &pending[0], &formatted, FloatOrder::Greater, "> operator can only compare integers.")
            } else if is_less {
                compare_values(k, &pending[0], &formatted, FloatOrder::Less, "< operator can only compare integers.")
            } else {
                Ok(Token::Nothing)
            }
        } else {
            Ok(Token::Nothing)
        }
    } else {
        Ok(converted_value(k, formatted))
    }
}

/// Evaluates `tokens` with the variables `variables`, as `eval_run` says;
/// the value is the last one computed, given back with the variables, and
/// what `prnt` prints is appended to `out`. Float work goes to the float
/// kernel `floats`; each evaluation nested in another takes one unit of
/// `fuel`.
pub fn eval<K: Fn(FloatQuery) -> FloatAnswer>(
    tokens: Vec<Token>,
    variables: Env,
    floats: &K,
    fuel: usize,
    out: &mut Vec<char>,
) -> (r: Result<(Token, Env), EvalError>)
    requires
        kernel_ok(*floats),
    ensures
        eval_result(r, final(out)@, eval_run(*floats, fuel as nat, seq_view(tokens@), variables@, old(out)@)),
    decreases fuel, 0int, 0int,
{
    proof {
        crate::unfold::lemma_eval_run(*floats, fuel as nat, seq_view(tokens@), variables@, out@);
        
    }
    if fuel == 0 {
        return Err(EvalError::Exhausted);
    }
    let f = fuel - 1;
    let ghost tv = seq_view(tokens@);
    let ghost vars0 = variables@;
    let ghost target = eval_run(*floats, fuel as nat, tv, vars0, old(out)@);
    let mut i: usize = 0;
    let mut last = Token::Integer(0);
    let mut vars = variables;
    loop
        invariant
            target == eval_run(*floats, fuel as nat, tv, vars0, old(out)@),
            vars0 == variables@,
            kernel_ok(*floats),
            f == fuel - 1,
            tv == seq_view(tokens@),
            i <= tokens@.len(),
            target == eval_from(*floats, f as nat, tv, i as int, last@, vars@, out@),
        decreases tokens@.len() - i,
    {
        proof {
            crate::unfold::lemma_eval_from(*floats, f as nat, tv, i as int, last@, vars@, out@);
            crate::token::lemma_seq_view_len(tokens@);
        }
        if i >= tokens.len() {
            return Ok((last, vars));
        }
        assert(tv[i as int] == tokens@[i as int]@);
        let token = resolve_token(&tokens[i], &vars);
        let step = do_step(floats, f, &tokens, i, token, last, vars, out);
        match step {
            StepEnd::Stop(r) => {
                return r;
            },
            StepEnd::Next(adv, last2, vars2) => {
                if adv >= tokens.len() - i - 1 {
                    return Ok((last2, vars2));
                }
                i = i + 1 + adv;
                last = last2;
                vars = vars2;
            },
        }
    }
}

fn do_step<K: Fn(FloatQuery) -> FloatAnswer>(
    k: &K,
    f: usize,
    tokens: &Vec<Token>,
    i: usize,
    token: Token,
    last: Token,
    vars: Env,
    out: &mut Vec<char>,
) -> (r: StepEnd)
    requires
        kernel_ok(*k),
        i < tokens@.len(),
    ensures
        step_result(r, final(out)@, eval_step(*k, f as nat, seq_view(tokens@), i as int, token@, last@, vars@, old(out)@)),
    decreases f, 7int, 0int,
{
    proof {
        crate::unfold::lemma_eval_step(*k, f as nat, seq_view(tokens@), i as int, token@, last@, vars@, out@);
    }
    let scalar = match &token {
        Token::Integer(_) => true,
        Token::Float(_) => true,
        Token::String(_) => true,
        Token::Boolean(_) => true,
        _ => false,
    };
    if scalar {
        let next_is_symbol = if tokens.len() - i > 1 {
            assert(seq_view(tokens@)[i + 1] == tokens@[i + 1]@);
            match &tokens[i + 1] {
                Token::Symbol(_) => true,
                _ => false,
            }
        } else {
            false
        };
        if !next_is_symbol {
            return StepEnd::Stop(Ok((token, vars)));
        } else {
            return StepEnd::Next(0, token, vars);
        }
    }
    match token {
        Token::Symbol(Symbol::Equal) => do_assign(k, f, tokens, i, last, vars, out),
        Token::Function(name, args) => do_call(k, f, tokens, i, name, args, vars, out),
        Token::If(c) => do_if(k, f, tokens, i, c, last, vars, out),
        Token::Repeat(c) => do_repeat(k, f, tokens, i, c, last, vars, out),
        Token::Block(b) => do_block(k, f, b, vars, out),
        _ => StepEnd::Next(0, last, vars),
    }
}

fn do_assign<K: Fn(FloatQuery) -> FloatAnswer>(
    k: &K,
    f: usize,
    tokens: &Vec<Token>,
    i: usize,
    last: Token,
    vars: Env,
    out: &mut Vec<char>,
) -> (r: StepEnd)
    requires
        kernel_ok(*k),
        i < tokens@.len(),
    ensures
        step_result(r, final(out)@, assign_step(*k, f as nat, seq_view(tokens@), i as int, last@, vars@, old(out)@)),
    decreases f, 4int, 0int,
{
    proof {
        crate::unfold::lemma_assign_step(*k, f as nat, seq_view(tokens@), i as int, last@, vars@, out@);
    }
    if i == 0 {
        return StepEnd::Stop(Err(EvalError::Fault));
    }
    StepEnd::Stop(Err(EvalError::Stuck))
}

fn do_call<K: Fn(FloatQuery) -> FloatAnswer>(
    k: &K,
    f: usize,
    tokens: &Vec<Token>,
    i: usize,
    name: String,
    args: Vec<Vec<Token>>,
    vars: Env,
    out: &mut Vec<char>,
) -> (r: StepEnd)
    requires
        kernel_ok(*k),
        i < tokens@.len(),
    ensures
        step_result(
            r,
            final(out)@,
            call_step(*k, f as nat, seq_view(tokens@), i as int, name@, seqs_view(args@), vars@, old(out)@),
        ),
    decreases f, 5int, 0int,
{
    proof {
        crate::unfold::lemma_call_step(*k, f as nat, seq_view(tokens@), i as int, name@, seqs_view(args@), vars@, out@);
    }
    if chars_equal_str(&string_chars(&name), "prnt") {
        match run_prnt(k, f, &args, &vars, out) {
            Err(e) => StepEnd::Stop(Err(e)),
            Ok(()) => {
                out.push('\n');
                StepEnd::Next(0, Token::Integer(0), vars)
            },
        }
    } else if tokens.len() - i > 1 {
        assert(seq_view(tokens@)[i + 1] == tokens@[i + 1]@);
        match &tokens[i + 1] {
            Token::Block(body) => match rename_all(k, body, &args) {
                None => StepEnd::Stop(Err(EvalError::Fault)),
                Some(b) => {
                    let mut vars = vars;
                    vars.insert(name, Token::Block(b));
                    StepEnd::Next(1, Token::Integer(0), vars)
                },
            },
            _ => StepEnd::Next(1, Token::Integer(0), vars),
        }
    } else {
        let found = match vars.get(&name) {
            Some(t) => match t {
                Token::Block(b) => Some(copy_tokens(b)),
                _ => None,
            },
            None => None,
        };
        match found {
            Some(b) => {
                let bound = bind_all(vars, &args);
                StepEnd::Stop(Ok((Token::Block(b), bound)))
            },
            None => StepEnd::Stop(Err(EvalError::Reported(not_found(&name)))),
        }
    }
}

fn prnt_values_of(s: &Vec<Token>, vars: &Env) -> (r: Vec<Token>)
    ensures
        seq_view(r@) == prnt_values(seq_view(s@), vars@),
{
    let ghost sv = seq_view(s@);
    let mut r: Vec<Token> = Vec::new();
    let mut i: usize = 0;
    proof {
        assert(sv.subrange(0, 0) =~= Seq::<TokenView>::empty());
        assert(seq_view(r@) =~= Seq::<TokenView>::empty());
    }
    while i < s.len()
        invariant
            sv == seq_view(s@),
            i <= s@.len(),
            seq_view(r@) == prnt_values(sv.subrange(0, i as int), vars@),
        decreases s.len() - i,
    {
        let ghost nxt = sv.subrange(0, i + 1);
        proof {
            assert(nxt.drop_last() =~= sv.subrange(0, i as int));
            assert(nxt.last() == s@[i as int]@);
        }
        match &s[i] {
            Token::Identifier(n) => match vars.get(n) {
                Some(v) => {
                    let ghost before = r@;
                    r.push(v.duplicate());
                    proof {
                        crate::token::lemma_seq_view_push(before, r@.last());
                        assert(before.push(r@.last()) =~= r@);
                    }
                },
                None => {},
            },
            t => {
                let ghost before = r@;
                r.push(t.duplicate());
                proof {
                    crate::token::lemma_seq_view_push(before, r@.last());
                    assert(before.push(r@.last()) =~= r@);
                }
            },
        }
        i = i + 1;
    }
    assert(sv.subrange(0, s@.len() as int) =~= sv);
    r
}

fn run_prnt<K: Fn(FloatQuery) -> FloatAnswer>(
    k: &K,
    f: usize,
    args: &Vec<Vec<Token>>,
    vars: &Env,
    out: &mut Vec<char>,
) -> (r: Result<(), EvalError>)
    requires
        kernel_ok(*k),
    ensures
        unit_result(r, final(out)@, prnt_from(*k, f as nat, seqs_view(args@), 0, vars@, old(out)@)),
    decreases f, 4int, 0int,
{
    let ghost av = seqs_view(args@);
    proof {
        crate::unfold::lemma_prnt_from(*k, f as nat, av, 0, vars@, out@);
    }
    if args.len() == 0 {
        return Ok(());
    }
    assert(av[0] == seq_view(args@[0]@));
    let changed = prnt_values_of(&args[0], vars);
    let empty = Env::new();
    match calc_with_variables(copy_tokens(&changed), &empty, k, f, out) {
        Err(e) => Err(e),
        Ok(v) => if is_nothing(&v) {
            match eval(changed, vars.duplicate(), k, f, out) {
                Err(e) => Err(e),
                Ok(_) => Err(EvalError::Stuck),
            }
        } else {
            Err(EvalError::Stuck)
        },
    }
}

fn replace_all<K: Fn(FloatQuery) -> FloatAnswer>(
    k: &K,
    body: &Vec<Token>,
    target: &Token,
    name: &String,
) -> (r: Vec<Token>)
    requires
        kernel_ok(*k),
    ensures
        seq_view(r@) == replace_matching(*k, seq_view(body@), target@, name@),
{
    let mut r: Vec<Token> = Vec::new();
    let mut j: usize = 0;
    while j < body.len()
        invariant
            kernel_ok(*k),
            j <= body@.len(),
            r@.len() == j,
            forall|m: int| 0 <= m < j ==> (#[trigger] r@[m])@ == (if token_eq(*k, body@[m]@, target@) {
                TokenView::Identifier(name@)
            } else {
                body@[m]@
            }),
        decreases body.len() - j,
    {
        if tokens_equal(k, &body[j], target) {
            r.push(Token::Identifier(name.clone()));
        } else {
            r.push(body[j].duplicate());
        }
        j = j + 1;
    }
    assert(seq_view(r@) =~= replace_matching(*k, seq_view(body@), target@, name@));
    r
}

fn rename_all<K: Fn(FloatQuery) -> FloatAnswer>(
    k: &K,
    body: &Vec<Token>,
    args: &Vec<Vec<Token>>,
) -> (r: Option<Vec<Token>>)
    requires
        kernel_ok(*k),
    ensures
        match r {
            Some(b) => rename_params(*k, seq_view(body@), seqs_view(args@), 0) == Some(seq_view(b@)),
            None => rename_params(*k, seq_view(body@), seqs_view(args@), 0) is None,
        },
{
    let ghost av = seqs_view(args@);
    let mut cur = copy_tokens(body);
    let mut n: usize = 0;
    while n < args.len()
        invariant
            kernel_ok(*k),
            av == seqs_view(args@),
            n <= args@.len(),
            rename_params(*k, seq_view(body@), av, 0) == rename_params(*k, seq_view(cur@), av, n as int),
        decreases args.len() - n,
    {
        assert(av[n as int] == seq_view(args@[n as int]@));
        if args[n].len() == 0 {
            if cur.len() != 0 {
                return None;
            }
        } else {
            assert(av[n as int][0] == args@[n as int]@[0]@);
            let pname = param_string(n);
            cur = replace_all(k, &cur, &args[n][0], &pname);
        }
        n = n + 1;
    }
    Some(cur)
}

fn bind_all(vars: Env, args: &Vec<Vec<Token>>) -> (r: Env)
    ensures
        r@ == bind_params(vars@, seqs_view(args@), 0),
{
    let ghost av = seqs_view(args@);
    let ghost start = vars@;
    let mut vars = vars;
    let mut n: usize = 0;
    while n < args.len()
        invariant
            av == seqs_view(args@),
            n <= args@.len(),
            bind_params(start, av, 0) == bind_params(vars@, av, n as int),
        decreases args.len() - n,
    {
        assert(av[n as int] == seq_view(args@[n as int]@));
        vars.insert(param_string(n), Token::Block(copy_tokens(&args[n])));
        n = n + 1;
    }
    vars
}

fn if_cond_value<K: Fn(FloatQuery) -> FloatAnswer>(
    k: &K,
    f: usize,
    c: &Vec<Token>,
    vars: Env,
    out: &mut Vec<char>,
) -> (r: Result<(Token, Env), EvalError>)
    requires
        kernel_ok(*k),
    ensures
        eval_result(r, final(out)@, if_cond(*k, f as nat, seq_view(c@), vars@, old(out)@)),
    decreases f, 4int, 0int,
{
    proof {
        crate::unfold::lemma_if_cond(*k, f as nat, seq_view(c@), vars@, out@);
    }
    let s = substitute_variables(c, &vars);
    if s.len() == 1 {
        assert(seq_view(s@)[0] == s@[0]@);
        let t = s[0].duplicate();
        return Ok((t, vars));
    }
    match calc_with_variables(copy_tokens(&s), &vars, k, f, out) {
        Err(e) => Err(e),
        Ok(v) => if is_nothing(&v) {
            eval(s, vars, k, f, out)
        } else {
            Ok((v, vars))
        },
    }
}

fn block_at<K: Fn(FloatQuery) -> FloatAnswer>(
    k: &K,
    f: usize,
    tokens: &Vec<Token>,
    j: usize,
    vars: Env,
    out: &mut Vec<char>,
) -> (r: Result<Env, EvalError>)
    requires
        kernel_ok(*k),
    ensures
        env_result(r, final(out)@, run_block_at(*k, f as nat, seq_view(tokens@), j as int, vars@, old(out)@)),
    decreases f, 2int, 0int,
{
    proof {
        crate::unfold::lemma_run_block_at(*k, f as nat, seq_view(tokens@), j as int, vars@, out@);
    }
    if j < tokens.len() {
        assert(seq_view(tokens@)[j as int] == tokens@[j as int]@);
        match &tokens[j] {
            Token::Block(b) => match eval(copy_tokens(b), vars, k, f, out) {
                Err(e) => Err(e),
                Ok((_, v)) => Ok(v),
            },
            _ => Ok(vars),
        }
    } else {
        Ok(vars)
    }
}

fn do_if<K: Fn(FloatQuery) -> FloatAnswer>(
    k: &K,
    f: usize,
    tokens: &Vec<Token>,
    i: usize,
    c: Vec<Token>,
    last: Token,
    vars: Env,
    out: &mut Vec<char>,
) -> (r: StepEnd)
    requires
        kernel_ok(*k),
        i < tokens@.len(),
    ensures
        step_result(r, final(out)@, if_step(*k, f as nat, seq_view(tokens@), i as int, seq_view(c@), last@, vars@, old(out)@)),
    decreases f, 5int, 0int,
{
    proof {
        crate::unfold::lemma_if_step(*k, f as nat, seq_view(tokens@), i as int, seq_view(c@), last@, vars@, out@);
    }
    let len = tokens.len();
    match if_cond_value(k, f, &c, vars, out) {
        Err(e) => StepEnd::Stop(Err(e)),
        Ok((cond, vars1)) => {
            let r1 = if is_truthy(&cond) {
                block_at(k, f, tokens, i + 1, vars1, out)
            } else {
                Ok(vars1)
            };
            match r1 {
                Err(e) => StepEnd::Stop(Err(e)),
                Ok(vars2) => {
                    let has_else = if is_falsy(&cond) && tokens.len() - i > 2 {
                        assert(seq_view(tokens@)[i + 2] == tokens@[i + 2]@);
                        match &tokens[i + 2] {
                            Token::Else => true,
                            _ => false,
                        }
                    } else {
                        false
                    };
                    if has_else {
                        match block_at(k, f, tokens, i + 3, vars2, out) {
                            Err(e) => StepEnd::Stop(Err(e)),
                            Ok(vars3) => StepEnd::Next(3, last, vars3),
                        }
                    } else {
                        StepEnd::Next(1, last, vars2)
                    }
                },
            }
        },
    }
}

fn repeat_block<K: Fn(FloatQuery) -> FloatAnswer>(
    k: &K,
    f: usize,
    body: &Vec<Token>,
    n: isize,
    vars: Env,
    out: &mut Vec<char>,
) -> (r: Result<Env, EvalError>)
    requires
        kernel_ok(*k),
    ensures
        env_result(r, final(out)@, repeat_loop(*k, f as nat, seq_view(body@), n as int, vars@, old(out)@)),
    decreases f, 2int, 0int,
{
    let ghost vars0 = vars@;
    let ghost target = repeat_loop(*k, f as nat, seq_view(body@), n as int, vars0, old(out)@);
    let mut left = n;
    let mut cur = vars;
    while left > 0
        invariant
            target == repeat_loop(*k, f as nat, seq_view(body@), n as int, vars0, old(out)@),
            vars0 == vars@,
            kernel_ok(*k),
            target == repeat_loop(*k, f as nat, seq_view(body@), left as int, cur@, out@),
        decreases left,
    {
        proof {
            crate::unfold::lemma_repeat_loop(*k, f as nat, seq_view(body@), left as int, cur@, out@);
        }
        match eval(copy_tokens(body), cur, k, f, out) {
            Err(e) => {
                return Err(e);
            },
            Ok((_, v)) => {
                cur = v;
            },
        }
        left = left - 1;
    }
    proof {
        crate::unfold::lemma_repeat_loop(*k, f as nat, seq_view(body@), left as int, cur@, out@);
    }
    Ok(cur)
}

fn do_repeat<K: Fn(FloatQuery) -> FloatAnswer>(
    k: &K,
    f: usize,
    tokens: &Vec<Token>,
    i: usize,
    c: Vec<Token>,
    last: Token,
    vars: Env,
    out: &mut Vec<char>,
) -> (r: StepEnd)
    requires
        kernel_ok(*k),
        i < tokens@.len(),
    ensures
        step_result(r, final(out)@, repeat_step(*k, f as nat, seq_view(tokens@), i as int, seq_view(c@), last@, vars@, old(out)@)),
    decreases f, 4int, 0int,
{
    proof {
        crate::unfold::lemma_repeat_step(*k, f as nat, seq_view(tokens@), i as int, seq_view(c@), last@, vars@, out@);
    }
    match calc_with_variables(c, &vars, k, f, out) {
        Err(e) => StepEnd::Stop(Err(e)),
        Ok(count) => {
            if tokens.len() - i > 1 {
                assert(seq_view(tokens@)[i + 1] == tokens@[i + 1]@);
                match &tokens[i + 1] {
                    Token::Block(b) => match count {
                        Token::Integer(n) => match repeat_block(k, f, b, n, vars, out) {
                            Err(e) => StepEnd::Stop(Err(e)),
                            Ok(v) => StepEnd::Next(1, last, v),
                        },
                        _ => StepEnd::Stop(
                            Err(EvalError::Reported(text_of("ONLY NUMBRZ CAN G0 IN REP3T!! NO FUNNY STUFF ALLOWED!!!"))),
                        ),
                    },
                    _ => StepEnd::Next(1, last, vars),
                }
            } else {
                StepEnd::Next(1, last, vars)
            }
        },
    }
}

fn process_block<K: Fn(FloatQuery) -> FloatAnswer>(
    k: &K,
    f: usize,
    b: &Vec<Token>,
    vars: Env,
    out: &mut Vec<char>,
) -> (r: Result<(Vec<Token>, Env), EvalError>)
    requires
        kernel_ok(*k),
    ensures
        ({
            let run = block_fns(*k, f as nat, seq_view(b@), 0, Seq::empty(), vars@, old(out)@);
            &&& final(out)@ == run.out
            &&& match r {
                Ok((p, v)) => run.result == Ok::<(Seq<TokenView>, Bindings), EvalErrorView>((seq_view(p@), v@)),
                Err(e) => run.result == Err::<(Seq<TokenView>, Bindings), EvalErrorView>(e@),
            }
        }),
    decreases f, 2int, 0int,
{
    let ghost bv = seq_view(b@);
    let ghost vars0 = vars@;
    let ghost target = block_fns(*k, f as nat, bv, 0, Seq::empty(), vars0, old(out)@);
    let mut acc: Vec<Token> = Vec::new();
    let mut cur = vars;
    let mut j: usize = 0;
    assert(seq_view(acc@) =~= Seq::<TokenView>::empty());
    while j < b.len()
        invariant
            target == block_fns(*k, f as nat, bv, 0, Seq::empty(), vars0, old(out)@),
            vars0 == vars@,
            kernel_ok(*k),
            bv == seq_view(b@),
            j <= b@.len(),
            target == block_fns(*k, f as nat, bv, j as int, seq_view(acc@), cur@, out@),
        decreases b.len() - j,
    {
        proof {
            crate::unfold::lemma_block_fns(*k, f as nat, bv, j as int, seq_view(acc@), cur@, out@);
        }
        assert(bv[j as int] == b@[j as int]@);
        let is_fn = match &b[j] {
            Token::Function(_, _) => true,
            _ => false,
        };
        let ghost before = acc@;
        if is_fn {
            match eval(single(&b[j]), cur, k, f, out) {
                Err(e) => {
                    return Err(e);
                },
                Ok((res, v)) => {
                    acc.push(res);
                    cur = v;
                },
            }
        } else {
            acc.push(b[j].duplicate());
        }
        proof {
            crate::token::lemma_seq_view_push(before, acc@.last());
            assert(before.push(acc@.last()) =~= acc@);
        }
        j = j + 1;
    }
    proof {
        crate::unfold::lemma_block_fns(*k, f as nat, bv, j as int, seq_view(acc@), cur@, out@);
    }
    Ok((acc, cur))
}

fn block_result<K: Fn(FloatQuery) -> FloatAnswer>(
    k: &K,
    f: usize,
    p: Vec<Token>,
    vars: Env,
    out: &mut Vec<char>,
) -> (r: Result<(Token, Env), EvalError>)
    requires
        kernel_ok(*k),
    ensures
        eval_result(r, final(out)@, block_value(*k, f as nat, seq_view(p@), vars@, old(out)@)),
    decreases f, 5int, 0int,
{
    proof {
        crate::unfold::lemma_block_value(*k, f as nat, seq_view(p@), vars@, out@);
    }
    if p.len() == 0 {
        return Ok((Token::Integer(0), vars));
    }
    assert(seq_view(p@)[0] == p@[0]@);
    let starts_string = match &p[0] {
        Token::String(_) => true,
        _ => false,
    };
    if starts_string {
        match calc_str(copy_tokens(&p), &vars) {
            Err(e) => Err(e),
            Ok(c) => if is_nothing(&c) {
                eval(p, vars, k, f, out)
            } else {
                Ok((c, vars))
            },
        }
    } else {
        let s = substitute_variables(&p, &vars);
        match calc_fi(copy_tokens(&s), &vars, k, f, out) {
            Err(e) => Err(e),
            Ok(v1) => if !is_nothing(&v1) {
                Ok((v1, vars))
            } else {
                match calc_with_variables(copy_tokens(&s), &vars, k, f, out) {
                    Err(e) => Err(e),
                    Ok(v2) => if !is_nothing(&v2) {
                        Ok((v2, vars))
                    } else {
                        let empty = Env::new();
                        match calc_with_variables(copy_tokens(&s), &empty, k, f, out) {
                            Err(e) => Err(e),
                            Ok(v3) => if !is_nothing(&v3) {
                                Ok((v3, vars))
                            } else {
                                eval(s, vars, k, f, out)
                            },
                        }
                    },
                }
            },
        }
    }
}

fn do_block<K: Fn(FloatQuery) -> FloatAnswer>(
    k: &K,
    f: usize,
    b: Vec<Token>,
    vars: Env,
    out: &mut Vec<char>,
) -> (r: StepEnd)
    requires
        kernel_ok(*k),
    ensures
        step_result(r, final(out)@, block_step(*k, f as nat, seq_view(b@), vars@, old(out)@)),
    decreases f, 6int, 0int,
{
    proof {
        crate::unfold::lemma_block_step(*k, f as nat, seq_view(b@), vars@, out@);
    }
    match process_block(k, f, &b, vars, out) {
        Err(e) => StepEnd::Stop(Err(e)),
        Ok((processed, vars1)) => {
            let one = processed.len() == 1;
            match block_result(k, f, processed, vars1, out) {
                Err(e) => StepEnd::Stop(Err(e)),
                Ok((v, vars2)) => if one {
                    StepEnd::Stop(Ok((v, vars2)))
                } else {
                    StepEnd::Next(0, v, vars2)
                },
            }
        },
    }
}

impl Class {
    /// Formatting the class, as `class_text` says: its `!!format!!` method
    /// runs, and what it prints is appended to `out`; where it returns a
    /// value, formatting that value never ends (`Stuck`).
    pub fn display<K: Fn(FloatQuery) -> FloatAnswer>(
        &self,
        floats: &K,
        fuel: usize,
        out: &mut Vec<char>,
    ) -> (r: Result<String, EvalError>)
        requires
            kernel_ok(*floats),
        ensures
            ({
                let run = class_text(*floats, fuel as nat, self@, old(out)@);
                &&& final(out)@ == run.out
                &&& match r {
                    Ok(s) => run.result == Ok::<Seq<char>, EvalErrorView>(s@),
                    Err(e) => run.result == Err::<Seq<char>, EvalErrorView>(e@),
                }
            }),
    {
        match self.run_method(text_of("!!format!!"), Env::new(), floats, fuel, out) {
            Err(e) => Err(e),
            Ok(_) => Err(EvalError::Stuck),
        }
    }

    /// Runs the method `name` with the arguments `args`, as
    /// `run_method_run` says; what it prints is appended to `out`.
    pub fn run_method<K: Fn(FloatQuery) -> FloatAnswer>(
        &self,
        name: String,
        args: Env,
        floats: &K,
        fuel: usize,
        out: &mut Vec<char>,
    ) -> (r: Result<Token, EvalError>)
        requires
            kernel_ok(*floats),
        ensures
            value_result(r, final(out)@, run_method_run(*floats, fuel as nat, self@, name@, args@, old(out)@)),
        decreases fuel, 1int, 0int,
    {
        proof {
            crate::unfold::lemma_run_method_run(*floats, fuel as nat, self@, name@, args@, out@);
        }
        match self.methods.get(&name) {
            None => Ok(Token::Nothing),
            Some(function) => {
                let mut merged = self.fields.duplicate();
                merged.extend(args);
                let body = single(function);
                match eval(body, merged, floats, fuel, out) {
                    Err(e) => Err(e),
                    Ok((v, _)) => Ok(v),
                }
            },
        }
    }
}

fn first_pass<K: Fn(FloatQuery) -> FloatAnswer>(
    k: &K,
    f: usize,
    t: &Vec<Token>,
    out: &mut Vec<char>,
) -> (r: Result<Vec<Token>, EvalError>)
    requires
        kernel_ok(*k),
        t@.len() > 0,
    ensures
        ({
            let run = cwv_pass1(*k, f as nat, seq_view(t@), 1, Seq::empty(), seq_view(t@)[0], old(out)@);
            &&& final(out)@ == run.out
            &&& match r {
                Ok(v) => v@.len() > 0 && run.result == Ok::<Seq<TokenView>, EvalErrorView>(seq_view(v@)),
                Err(e) => run.result == Err::<Seq<TokenView>, EvalErrorView>(e@),
            }
        }),
    decreases f, 2int, 0int,
{
    let ghost tv = seq_view(t@);
    let ghost target = cwv_pass1(*k, f as nat, tv, 1, Seq::empty(), tv[0], old(out)@);
    let mut acc: Vec<Token> = Vec::new();
    let mut current = t[0].duplicate();
    let mut i: usize = 1;
    assert(seq_view(acc@) =~= Seq::<TokenView>::empty());
    loop
        invariant
            target == cwv_pass1(*k, f as nat, tv, 1, Seq::empty(), tv[0], old(out)@),
            kernel_ok(*k),
            tv == seq_view(t@),
            1 <= i,
            target == cwv_pass1(*k, f as nat, tv, i as int, seq_view(acc@), current@, out@),
        decreases t@.len() - i,
    {
        proof {
            crate::unfold::lemma_cwv_pass1(*k, f as nat, tv, i as int, seq_view(acc@), current@, out@);
        }
        let ghost before = acc@;
        if i >= t.len() {
            acc.push(current);
            proof {
                crate::token::lemma_seq_view_push(before, acc@.last());
                assert(before.push(acc@.last()) =~= acc@);
            }
            return Ok(acc);
        }
        assert(tv[i as int] == t@[i as int]@);
        match &t[i] {
            Token::Symbol(op) => {
                let op = *op;
                if i + 1 >= t.len() {
                    let copy = current.duplicate();
                    acc.push(copy);
                    proof {
                        crate::token::lemma_seq_view_push(before, acc@.last());
                        assert(before.push(acc@.last()) =~= acc@);
                    }
                    let ghost mid = acc@;
                    acc.push(current);
                    proof {
                        crate::token::lemma_seq_view_push(mid, acc@.last());
                        assert(mid.push(acc@.last()) =~= acc@);
                    }
                    return Ok(acc);
                }
                assert(tv[i + 1] == t@[i + 1]@);
                let next = t[i + 1].duplicate();
                if op == Symbol::Multiply || op == Symbol::Divide || op == Symbol::Mod {
                    let class = current.change2class(k);
                    match class.run_method(method_name(op), rhs_args(next), k, f, out) {
                        Err(e) => {
                            return Err(e);
                        },
                        Ok(c2) => {
                            current = c2;
                        },
                    }
                } else if op == Symbol::Plus || op == Symbol::Minus || op == Symbol::Is || op == Symbol::Greater
                    || op == Symbol::Less {
                    acc.push(current);
                    proof {
                        crate::token::lemma_seq_view_push(before, acc@.last());
                        assert(before.push(acc@.last()) =~= acc@);
                    }
                    let ghost mid = acc@;
                    acc.push(Token::Symbol(op));
                    proof {
                        crate::token::lemma_seq_view_push(mid, acc@.last());
                        assert(mid.push(acc@.last()) =~= acc@);
                    }
                    current = next;
                }
                i = i + 2;
            },
            _ => {
                i = i + 1;
            },
        }
    }
}

fn second_pass<K: Fn(FloatQuery) -> FloatAnswer>(
    k: &K,
    f: usize,
    rt: &Vec<Token>,
    out: &mut Vec<char>,
) -> (r: Result<(Vec<Token>, Class), EvalError>)
    requires
        kernel_ok(*k),
        rt@.len() > 0,
    ensures
        ({
            let run = cwv_pass2(*k, f as nat, seq_view(rt@), 1, Seq::empty(), class_of(*k, seq_view(rt@)[0]), old(out)@);
            &&& final(out)@ == run.out
            &&& match r {
                Ok((p, c)) => run.result == Ok::<(Seq<TokenView>, ClassView), EvalErrorView>((seq_view(p@), c@)),
                Err(e) => run.result == Err::<(Seq<TokenView>, ClassView), EvalErrorView>(e@),
            }
        }),
    decreases f, 2int, 0int,
{
    let ghost tv = seq_view(rt@);
    assert(tv[0] == rt@[0]@);
    let ghost target = cwv_pass2(*k, f as nat, tv, 1, Seq::empty(), class_of(*k, tv[0]), old(out)@);
    let mut acc: Vec<Token> = Vec::new();
    let mut cur = rt[0].change2class(k);
    let mut i: usize = 1;
    assert(seq_view(acc@) =~= Seq::<TokenView>::empty());
    loop
        invariant
            target == cwv_pass2(*k, f as nat, tv, 1, Seq::empty(), class_of(*k, tv[0]), old(out)@),
            kernel_ok(*k),
            tv == seq_view(rt@),
            1 <= i,
            target == cwv_pass2(*k, f as nat, tv, i as int, seq_view(acc@), cur@, out@),
        decreases rt@.len() - i,
    {
        proof {
            crate::unfold::lemma_cwv_pass2(*k, f as nat, tv, i as int, seq_view(acc@), cur@, out@);
        }
        if i >= rt.len() {
            return Ok((acc, cur));
        }
        assert(tv[i as int] == rt@[i as int]@);
        match &rt[i] {
            Token::Symbol(op) => {
                let op = *op;
                if i + 1 >= rt.len() {
                    return Ok((acc, cur));
                }
                assert(tv[i + 1] == rt@[i + 1]@);
                let next = rt[i + 1].duplicate();
                if op == Symbol::Plus || op == Symbol::Minus {
                    match cur.run_method(method_name(op), rhs_args(next), k, f, out) {
                        Err(e) => {
                            return Err(e);
                        },
                        Ok(res) => {
                            cur = res.change2class(k);
                        },
                    }
                } else if op == Symbol::Is || op == Symbol::Greater || op == Symbol::Less {
                    match cur.run_method(text_of("!!format!!"), Env::new(), k, f, out) {
                        Err(e) => {
                            return Err(e);
                        },
                        Ok(fm) => {
                            let ghost before = acc@;
                            acc.push(fm);
                            proof {
                                crate::token::lemma_seq_view_push(before, acc@.last());
                                assert(before.push(acc@.last()) =~= acc@);
                            }
                            let ghost mid = acc@;
                            acc.push(Token::Symbol(op));
                            proof {
                                crate::token::lemma_seq_view_push(mid, acc@.last());
                                assert(mid.push(acc@.last()) =~= acc@);
                            }
                            cur = next.change2class(k);
                        },
                    }
                }
                i = i + 2;
            },
            _ => {
                i = i + 1;
            },
        }
    }
}

/// Calculates `tokens` with the variables `variables`, as `cwv` says; what
/// it prints is appended to `out`.
pub fn calc_with_variables<K: Fn(FloatQuery) -> FloatAnswer>(
    tokens: Vec<Token>,
    variables: &Env,
    floats: &K,
    fuel: usize,
    out: &mut Vec<char>,
) -> (r: Result<Token, EvalError>)
    requires
        kernel_ok(*floats),
    ensures
        value_result(r, final(out)@, cwv(*floats, fuel as nat, seq_view(tokens@), variables@, old(out)@)),
    decreases fuel, 3int, 0int,
{
    proof {
        crate::unfold::lemma_cwv(*floats, fuel as nat, seq_view(tokens@), variables@, out@);
    }
    if tokens.len() == 0 {
        return Ok(Token::Nothing);
    }
    let t = resolve_tokens(&tokens, variables);
    proof {
        crate::token::lemma_seq_view_len(tokens@);
        crate::token::lemma_seq_view_len(t@);
    }
    let rt = match first_pass(floats, fuel, &t, out) {
        Err(e) => {
            return Err(e);
        },
        Ok(rt) => rt,
    };
    let (pending, cur) = match second_pass(floats, fuel, &rt, out) {
        Err(e) => {
            return Err(e);
        },
        Ok(x) => x,
    };
    let formatted = match cur.run_method(text_of("!!format!!"), Env::new(), floats, fuel, out) {
        Err(e) => {
            return Err(e);
        },
        Ok(v) => v,
    };
    finish(floats, &pending, formatted)
}

/// Calculates `tokens` without variables: `calc_with_variables` with none.
pub fn calc<K: Fn(FloatQuery) -> FloatAnswer>(
    tokens: Vec<Token>,
    floats: &K,
    fuel: usize,
    out: &mut Vec<char>,
) -> (r: Result<Token, EvalError>)
    requires
        kernel_ok(*floats),
    ensures
        value_result(r, final(out)@, cwv(*floats, fuel as nat, seq_view(tokens@), Map::empty(), old(out)@)),
{
    let empty = Env::new();
    calc_with_variables(tokens, &empty, floats, fuel, out)
}

/// The float arithmetic of numbers and symbols, as `calc_fi_run` says; what
/// it prints is appended to `out`.
pub fn calc_fi<K: Fn(FloatQuery) -> FloatAnswer>(
    tokens: Vec<Token>,
    variables: &Env,
    floats: &K,
    fuel: usize,
    out: &mut Vec<char>,
) -> (r: Result<Token, EvalError>)
    requires
        kernel_ok(*floats),
    ensures
        value_result(r, final(out)@, calc_fi_run(*floats, fuel as nat, seq_view(tokens@), variables@, old(out)@)),
    decreases fuel, 4int, 0int,
{
    proof {
        crate::unfold::lemma_calc_fi_run(*floats, fuel as nat, seq_view(tokens@), variables@, out@);
    }
    let t = resolve_tokens(&tokens, variables);
    let ghost tv = seq_view(t@);
    proof {
        crate::token::lemma_seq_view_len(t@);
    }
    let mut comparison = false;
    let mut i: usize = 0;
    while i < t.len()
        invariant
            i <= t@.len(),
            tv == seq_view(t@),
            tv == resolved(seq_view(tokens@), variables@),
            out@ == old(out)@,
            forall|j: int| 0 <= j < i ==> (tv[j] is Symbol || tv[j] is Float || tv[j] is Integer),
            comparison <==> exists|j: int|
                0 <= j < i && (tv[j] == TokenView::Symbol(Symbol::Is) || tv[j] == TokenView::Symbol(Symbol::Greater)
                    || tv[j] == TokenView::Symbol(Symbol::Less)),
        decreases t.len() - i,
    {
        assert(tv[i as int] == t@[i as int]@);
        match &t[i] {
            Token::Symbol(s) => {
                if *s == Symbol::Is || *s == Symbol::Greater || *s == Symbol::Less {
                    comparison = true;
                }
            },
            Token::Float(_) => {},
            Token::Integer(_) => {},
            _ => {
                proof {
                    crate::unfold::lemma_calc_fi_run(*floats, fuel as nat, seq_view(tokens@), variables@, out@);
                }
                return Ok(Token::Nothing);
            },
        }
        i = i + 1;
    }
    if comparison {
        calc_with_variables(tokens, variables, floats, fuel, out)
    } else {
        fi_arithmetic(floats, &t)
    }
}

} // verus!
