//! What evaluation means: the evaluator and the calculators as spec
//! functions over token models, with the output threaded through.
use vstd::prelude::*;
use crate::calc::{fi_arith, str_calc, EvalErrorView};
use crate::class::{class_of, ClassView};
use crate::float::{float_order, parse_float, FloatAnswer, FloatOrder, FloatQuery};
use crate::number::{int_text, parse_isize_spec};
use crate::token::{Symbol, TokenView};
use crate::value::{resolve_one, resolved, subst_tokens, token_eq, Bindings};

verus! {

/// What an evaluation gave: a value or an error, and everything printed up
/// to that point (the output that was there before, then what it printed).
pub struct Run<T> {
    pub result: Result<T, EvalErrorView>,
    pub out: Seq<char>,
}

/// A finished run with the value `v`.
pub open spec fn done<T>(v: T, out: Seq<char>) -> Run<T> {
    Run { result: Ok(v), out }
}

/// A run stopped by the error `e`.
pub open spec fn failed<T>(e: EvalErrorView, out: Seq<char>) -> Run<T> {
    Run { result: Err(e), out }
}

/// The outcome of one round of the evaluation loop: go on after `adv`
/// more tokens than the one at hand, with the last value, the variables and
/// the output; or stop with a run.
pub enum Step {
    Next(nat, TokenView, Bindings, Seq<char>),
    Stop(Run<(TokenView, Bindings)>),
}

/// The message of a call to an unknown function.
pub open spec fn not_found_message(name: Seq<char>) -> Seq<char> {
    "Function "@ + name + " not found"@
}

/// The message of a repeat whose count is not an integer.
pub open spec fn repeat_message() -> Seq<char> {
    "ONLY NUMBRZ CAN G0 IN REP3T!! NO FUNNY STUFF ALLOWED!!!"@
}

/// The message of a `>` between values that are not numbers.
pub open spec fn greater_message() -> Seq<char> {
    "> operator can only compare integers."@
}

/// The message of a `<` between values that are not numbers.
pub open spec fn less_message() -> Seq<char> {
    "< operator can only compare integers."@
}

/// The name of the `n`-th parameter of a function: `$n`.
pub open spec fn param_name(n: int) -> Seq<char> {
    seq!['$'] + int_text(n)
}

/// The name of the method that carries out an operator.
pub open spec fn method_of(op: Symbol) -> Seq<char> {
    match op {
        Symbol::Plus => "!!add!!"@,
        Symbol::Minus => "!!sub!!"@,
        Symbol::Multiply => "!!mul!!"@,
        Symbol::Divide => "!!div!!"@,
        _ => "!!mod!!"@,
    }
}

/// A condition that runs the block after `if`: `true` or a non-zero integer.
pub open spec fn truthy(t: TokenView) -> bool {
    match t {
        TokenView::Boolean(b) => b,
        TokenView::Integer(n) => n != 0,
        _ => false,
    }
}

/// A condition that lets an `else` run: `false` or zero.
pub open spec fn falsy(t: TokenView) -> bool {
    match t {
        TokenView::Boolean(b) => !b,
        TokenView::Integer(n) => n == 0,
        _ => false,
    }
}

/// The tokens of a block (nothing for any other token).
pub open spec fn block_body(t: TokenView) -> Seq<TokenView> {
    match t {
        TokenView::Block(b) => b,
        _ => Seq::empty(),
    }
}

/// Every token of `t` is a number or a symbol.
pub open spec fn all_numeric(t: Seq<TokenView>) -> bool {
    forall|i: int| 0 <= i < t.len() ==> (t[i] is Symbol || t[i] is Float || t[i] is Integer)
}

/// Some token of `t` is a comparison (`is`, `>` or `<`).
pub open spec fn has_comparison(t: Seq<TokenView>) -> bool {
    exists|i: int|
        0 <= i < t.len() && (t[i] == TokenView::Symbol(Symbol::Is) || t[i] == TokenView::Symbol(Symbol::Greater)
            || t[i] == TokenView::Symbol(Symbol::Less))
}

/// The value that a formatted result stands for: `tru` and `falz` are the
/// booleans, then an integer or a float where the text parses as one, else
/// the text itself; a result that is not a string stays as it is.
pub open spec fn converted<K: Fn(FloatQuery) -> FloatAnswer>(k: K, formatted: TokenView) -> TokenView {
    match formatted {
        TokenView::String(s) => if s == "tru"@ {
            TokenView::Boolean(true)
        } else if s == "falz"@ {
            TokenView::Boolean(false)
        } else {
            match parse_isize_spec(s) {
                Some(n) => TokenView::Integer(n),
                None => match parse_float(k, s) {
                    Some(x) => TokenView::Float(x),
                    None => TokenView::String(s),
                },
            }
        },
        t => t,
    }
}

/// A `>` or `<` between two formatted values: both must be strings for a
/// result; both must then parse as floats (else the error `message`), and
/// the result is whether the kernel orders them as `want`.
pub open spec fn compared<K: Fn(FloatQuery) -> FloatAnswer>(
    k: K,
    l: TokenView,
    r: TokenView,
    want: FloatOrder,
    message: Seq<char>,
) -> Result<TokenView, EvalErrorView> {
    match (l, r) {
        (TokenView::String(a), TokenView::String(b)) => match (parse_float(k, a), parse_float(k, b)) {
            (Some(x), Some(y)) => Ok(TokenView::Boolean(float_order(k, x, y) == want)),
            _ => Err(EvalErrorView::Reported(message)),
        },
        _ => Ok(TokenView::Nothing),
    }
}

/// The end of `calc_with_variables`: with comparisons pending, only a single
/// comparison gives a value; without, the formatted result is converted.
pub open spec fn cwv_finish<K: Fn(FloatQuery) -> FloatAnswer>(
    k: K,
    pending: Seq<TokenView>,
    formatted: TokenView,
) -> Result<TokenView, EvalErrorView> {
    if pending.len() > 0 {
        let all = pending.push(formatted);
        if all.len() == 3 {
            if all[1] == TokenView::Symbol(Symbol::Is) {
                Ok(TokenView::Boolean(token_eq(k, all[0], all[2])))
            } else if all[1] == TokenView::Symbol(Symbol::Greater) {
                compared(k, all[0], all[2], FloatOrder::Greater, greater_message())
            } else if all[1] == TokenView::Symbol(Symbol::Less) {
                compared(k, all[0], all[2], FloatOrder::Less, less_message())
            } else {
                Ok(TokenView::Nothing)
            }
        } else {
            Ok(TokenView::Nothing)
        }
    } else {
        Ok(converted(k, formatted))
    }
}

/// The tokens of a `prnt` argument with identifiers replaced by their
/// values; identifiers that are not bound are left out.
pub open spec fn prnt_values(s: Seq<TokenView>, vars: Bindings) -> Seq<TokenView>
    decreases s.len(),
{
    if s.len() == 0 {
        Seq::empty()
    } else {
        let p = prnt_values(s.drop_last(), vars);
        match s.last() {
            TokenView::Identifier(n) => if vars.contains_key(n) {
                p.push(vars[n])
            } else {
                p
            },
            t => p.push(t),
        }
    }
}

/// `body` with every token equal to `target` replaced by the identifier
/// `name`.
pub open spec fn replace_matching<K: Fn(FloatQuery) -> FloatAnswer>(
    k: K,
    body: Seq<TokenView>,
    target: TokenView,
    name: Seq<char>,
) -> Seq<TokenView> {
    Seq::new(
        body.len(),
        |j: int| if token_eq(k, body[j], target) { TokenView::Identifier(name) } else { body[j] },
    )
}

/// The body of a function definition with the first token of each argument,
/// from the `n`-th on, replaced by its parameter name `$n`; an empty
/// argument is a fault unless the body is empty.
pub open spec fn rename_params<K: Fn(FloatQuery) -> FloatAnswer>(
    k: K,
    body: Seq<TokenView>,
    args: Seq<Seq<TokenView>>,
    n: int,
) -> Option<Seq<TokenView>>
    decreases args.len() - n,
{
    if n < 0 || n >= args.len() {
        Some(body)
    } else if args[n].len() == 0 {
        if body.len() == 0 {
            rename_params(k, body, args, n + 1)
        } else {
            None
        }
    } else {
        rename_params(k, replace_matching(k, body, args[n][0], param_name(n)), args, n + 1)
    }
}

/// The variables of a call: each argument from the `n`-th on bound, as a
/// block, to its parameter name.
pub open spec fn bind_params(vars: Bindings, args: Seq<Seq<TokenView>>, n: int) -> Bindings
    decreases args.len() - n,
{
    if n < 0 || n >= args.len() {
        vars
    } else {
        bind_params(vars.insert(param_name(n), TokenView::Block(args[n])), args, n + 1)
    }
}

/// What `eval` gives for `tokens` with the variables `vars`, after the
/// output `out`. Each evaluation nested in another takes one unit of
/// `fuel`; a run out of fuel stops with `Exhausted`.
#[verifier::opaque]
pub open spec fn eval_run<K: Fn(FloatQuery) -> FloatAnswer>(
    k: K,
    fuel: nat,
    tokens: Seq<TokenView>,
    vars: Bindings,
    out: Seq<char>,
) -> Run<(TokenView, Bindings)>
    decreases fuel, 0int, 0int,
{
    if fuel == 0 {
        failed(EvalErrorView::Exhausted, out)
    } else {
        eval_from(k, (fuel - 1) as nat, tokens, 0, TokenView::Integer(0), vars, out)
    }
}

/// The evaluation loop from the `i`-th token, with the last value `last`.
#[verifier::opaque]
pub open spec fn eval_from<K: Fn(FloatQuery) -> FloatAnswer>(
    k: K,
    f: nat,
    tokens: Seq<TokenView>,
    i: int,
    last: TokenView,
    vars: Bindings,
    out: Seq<char>,
) -> Run<(TokenView, Bindings)>
    decreases f, 8int, tokens.len() - i,
{
    if i < 0 || i >= tokens.len() {
        done((last, vars), out)
    } else {
        match eval_step(k, f, tokens, i, resolve_one(tokens[i], vars), last, vars, out) {
            Step::Next(adv, last2, vars2, out2) => if i + 1 + adv >= tokens.len() {
                done((last2, vars2), out2)
            } else {
                eval_from(k, f, tokens, i + 1 + adv, last2, vars2, out2)
            },
            Step::Stop(run) => run,
        }
    }
}

/// One round of the evaluation loop at the `i`-th token, which is `token`
/// once a bound identifier is replaced by its value.
#[verifier::opaque]
pub open spec fn eval_step<K: Fn(FloatQuery) -> FloatAnswer>(
    k: K,
    f: nat,
    tokens: Seq<TokenView>,
    i: int,
    token: TokenView,
    last: TokenView,
    vars: Bindings,
    out: Seq<char>,
) -> Step
    decreases f, 7int, 0int,
{
    match token {
        TokenView::Integer(_) | TokenView::Float(_) | TokenView::String(_) | TokenView::Boolean(_) => {
            if i + 1 >= tokens.len() || !(tokens[i + 1] is Symbol) {
                Step::Stop(done((token, vars), out))
            } else {
                Step::Next(0, token, vars, out)
            }
        },
        TokenView::Symbol(Symbol::Equal) => assign_step(k, f, tokens, i, last, vars, out),
        TokenView::Function(name, args) => call_step(k, f, tokens, i, name, args, vars, out),
        TokenView::If(c) => if_step(k, f, tokens, i, c, last, vars, out),
        TokenView::Repeat(c) => repeat_step(k, f, tokens, i, c, last, vars, out),
        TokenView::Block(b) => block_step(k, f, b, vars, out),
        _ => Step::Next(0, last, vars, out),
    }
}

/// `name = value`: the name is the `{}` text of the token before `=`; at the
/// start of the list there is no such token (a fault). Formatting a token
/// with `{}` never returns, since its `Display` formats the token with
/// itself again, so an assignment anywhere else runs for ever (`Stuck`).
#[verifier::opaque]
pub open spec fn assign_step<K: Fn(FloatQuery) -> FloatAnswer>(
    k: K,
    f: nat,
    tokens: Seq<TokenView>,
    i: int,
    last: TokenView,
    vars: Bindings,
    out: Seq<char>,
) -> Step
    decreases f, 4int, 0int,
{
    if i <= 0 {
        Step::Stop(failed(EvalErrorView::Fault, out))
    } else {
        Step::Stop(failed(EvalErrorView::Stuck, out))
    }
}

/// A function token: `prnt` with no argument prints a line break (with an
/// argument it runs for ever, see `prnt_from`); followed by a block it
/// defines the function; last in the list it calls the function, whose
/// result is its body with the arguments bound to the parameter names.
#[verifier::opaque]
pub open spec fn call_step<K: Fn(FloatQuery) -> FloatAnswer>(
    k: K,
    f: nat,
    tokens: Seq<TokenView>,
    i: int,
    name: Seq<char>,
    args: Seq<Seq<TokenView>>,
    vars: Bindings,
    out: Seq<char>,
) -> Step
    decreases f, 5int, 0int,
{
    if name == "prnt"@ {
        let r = prnt_from(k, f, args, 0, vars, out);
        match r.result {
            Err(e) => Step::Stop(failed(e, r.out)),
            Ok(_) => Step::Next(0, TokenView::Integer(0), vars, r.out.push('\n')),
        }
    } else if i + 1 < tokens.len() {
        match tokens[i + 1] {
            TokenView::Block(body) => match rename_params(k, body, args, 0) {
                None => Step::Stop(failed(EvalErrorView::Fault, out)),
                Some(b) => Step::Next(1, TokenView::Integer(0), vars.insert(name, TokenView::Block(b)), out),
            },
            _ => Step::Next(1, TokenView::Integer(0), vars, out),
        }
    } else if vars.contains_key(name) && vars[name] is Block {
        Step::Stop(done((vars[name], bind_params(vars, args, 0)), out))
    } else {
        Step::Stop(failed(EvalErrorView::Reported(not_found_message(name)), out))
    }
}

/// `prnt`, from its `j`-th argument: with no argument left it has printed
/// all it prints; else the argument, with its identifiers replaced, is
/// calculated (or, where that gives nothing, evaluated), and printing the
/// value with `{}` never returns (a token's `Display` formats the token with
/// itself again), so the run goes on for ever (`Stuck`).
#[verifier::opaque]
pub open spec fn prnt_from<K: Fn(FloatQuery) -> FloatAnswer>(
    k: K,
    f: nat,
    args: Seq<Seq<TokenView>>,
    j: int,
    vars: Bindings,
    out: Seq<char>,
) -> Run<()>
    decreases f, 4int, args.len() - j,
{
    if j < 0 || j >= args.len() {
        done((), out)
    } else {
        let changed = prnt_values(args[j], vars);
        let c = cwv(k, f, changed, Map::empty(), out);
        match c.result {
            Err(e) => failed(e, c.out),
            Ok(v) => if v == TokenView::Nothing {
                let r = eval_run(k, f, changed, vars, c.out);
                match r.result {
                    Err(e) => failed(e, r.out),
                    Ok(_) => failed(EvalErrorView::Stuck, r.out),
                }
            } else {
                failed(EvalErrorView::Stuck, c.out)
            },
        }
    }
}

/// The value of an `if` condition, after its variables are put in: a single
/// token is itself; else it is calculated, or evaluated where that gives
/// nothing.
#[verifier::opaque]
pub open spec fn if_cond<K: Fn(FloatQuery) -> FloatAnswer>(
    k: K,
    f: nat,
    c: Seq<TokenView>,
    vars: Bindings,
    out: Seq<char>,
) -> Run<(TokenView, Bindings)>
    decreases f, 4int, 0int,
{
    let s = subst_tokens(c, vars);
    if s.len() == 1 {
        done((s[0], vars), out)
    } else {
        let cv = cwv(k, f, s, vars, out);
        match cv.result {
            Err(e) => failed(e, cv.out),
            Ok(v) => if v == TokenView::Nothing {
                eval_run(k, f, s, vars, cv.out)
            } else {
                done((v, vars), cv.out)
            },
        }
    }
}

/// Runs the block at position `j`, if there is one there, and gives the
/// variables after it.
#[verifier::opaque]
pub open spec fn run_block_at<K: Fn(FloatQuery) -> FloatAnswer>(
    k: K,
    f: nat,
    tokens: Seq<TokenView>,
    j: int,
    vars: Bindings,
    out: Seq<char>,
) -> Run<Bindings>
    decreases f, 2int, 0int,
{
    if 0 <= j < tokens.len() && tokens[j] is Block {
        let r = eval_run(k, f, block_body(tokens[j]), vars, out);
        match r.result {
            Err(e) => failed(e, r.out),
            Ok((_, v)) => done(v, r.out),
        }
    } else {
        done(vars, out)
    }
}

/// `if`: the block after it runs when the condition is truthy; when it is
/// falsy and an `else` follows, the block after the `else` runs.
#[verifier::opaque]
pub open spec fn if_step<K: Fn(FloatQuery) -> FloatAnswer>(
    k: K,
    f: nat,
    tokens: Seq<TokenView>,
    i: int,
    c: Seq<TokenView>,
    last: TokenView,
    vars: Bindings,
    out: Seq<char>,
) -> Step
    decreases f, 5int, 0int,
{
    let cr = if_cond(k, f, c, vars, out);
    match cr.result {
        Err(e) => Step::Stop(failed(e, cr.out)),
        Ok((cond, vars1)) => {
            let r1 = if truthy(cond) {
                run_block_at(k, f, tokens, i + 1, vars1, cr.out)
            } else {
                done(vars1, cr.out)
            };
            match r1.result {
                Err(e) => Step::Stop(failed(e, r1.out)),
                Ok(vars2) => if falsy(cond) && i + 2 < tokens.len() && tokens[i + 2] == TokenView::Else {
                    let r2 = run_block_at(k, f, tokens, i + 3, vars2, r1.out);
                    match r2.result {
                        Err(e) => Step::Stop(failed(e, r2.out)),
                        Ok(vars3) => Step::Next(3, last, vars3, r2.out),
                    }
                } else {
                    Step::Next(1, last, vars2, r1.out)
                },
            }
        },
    }
}

/// Runs `body` `n` times, each time with the variables the last one left.
#[verifier::opaque]
pub open spec fn repeat_loop<K: Fn(FloatQuery) -> FloatAnswer>(
    k: K,
    f: nat,
    body: Seq<TokenView>,
    n: int,
    vars: Bindings,
    out: Seq<char>,
) -> Run<Bindings>
    decreases f, 2int, n,
{
    if n <= 0 {
        done(vars, out)
    } else {
        let r = eval_run(k, f, body, vars, out);
        match r.result {
            Err(e) => failed(e, r.out),
            Ok((_, v)) => repeat_loop(k, f, body, n - 1, v, r.out),
        }
    }
}

/// `repeat`: the count is calculated; when a block follows, it must be an
/// integer (else the language reports an error), and the block runs that
/// many times.
#[verifier::opaque]
pub open spec fn repeat_step<K: Fn(FloatQuery) -> FloatAnswer>(
    k: K,
    f: nat,
    tokens: Seq<TokenView>,
    i: int,
    c: Seq<TokenView>,
    last: TokenView,
    vars: Bindings,
    out: Seq<char>,
) -> Step
    decreases f, 4int, 0int,
{
    let cv = cwv(k, f, c, vars, out);
    match cv.result {
        Err(e) => Step::Stop(failed(e, cv.out)),
        Ok(count) => if i + 1 < tokens.len() && tokens[i + 1] is Block {
            match count {
                TokenView::Integer(n) => {
                    let r = repeat_loop(k, f, block_body(tokens[i + 1]), n as int, vars, cv.out);
                    match r.result {
                        Err(e) => Step::Stop(failed(e, r.out)),
                        Ok(v) => Step::Next(1, last, v, r.out),
                    }
                },
                _ => Step::Stop(failed(EvalErrorView::Reported(repeat_message()), cv.out)),
            }
        } else {
            Step::Next(1, last, vars, cv.out)
        },
    }
}

/// The tokens of a block from the `j`-th on, after `acc`, with each function
/// token replaced by what evaluating it gives.
#[verifier::opaque]
pub open spec fn block_fns<K: Fn(FloatQuery) -> FloatAnswer>(
    k: K,
    f: nat,
    b: Seq<TokenView>,
    j: int,
    acc: Seq<TokenView>,
    vars: Bindings,
    out: Seq<char>,
) -> Run<(Seq<TokenView>, Bindings)>
    decreases f, 2int, b.len() - j,
{
    if j < 0 || j >= b.len() {
        done((acc, vars), out)
    } else if b[j] is Function {
        let r = eval_run(k, f, seq![b[j]], vars, out);
        match r.result {
            Err(e) => failed(e, r.out),
            Ok((res, v)) => block_fns(k, f, b, j + 1, acc.push(res), v, r.out),
        }
    } else {
        block_fns(k, f, b, j + 1, acc.push(b[j]), vars, out)
    }
}

/// The value of a block's processed tokens: string arithmetic when they
/// start with a string; else, with the variables put in, the float
/// arithmetic, the calculation with variables, the calculation without, and
/// evaluation, in that order, the first that gives something.
#[verifier::opaque]
pub open spec fn block_value<K: Fn(FloatQuery) -> FloatAnswer>(
    k: K,
    f: nat,
    p: Seq<TokenView>,
    vars: Bindings,
    out: Seq<char>,
) -> Run<(TokenView, Bindings)>
    decreases f, 5int, 0int,
{
    if p.len() == 0 {
        done((TokenView::Integer(0), vars), out)
    } else if p[0] is String {
        match str_calc(p, vars) {
            Err(e) => failed(e, out),
            Ok(c) => if c == TokenView::Nothing {
                eval_run(k, f, p, vars, out)
            } else {
                done((c, vars), out)
            },
        }
    } else {
        let s = subst_tokens(p, vars);
        let c1 = calc_fi_run(k, f, s, vars, out);
        match c1.result {
            Err(e) => failed(e, c1.out),
            Ok(v1) => if v1 != TokenView::Nothing {
                done((v1, vars), c1.out)
            } else {
                let c2 = cwv(k, f, s, vars, c1.out);
                match c2.result {
                    Err(e) => failed(e, c2.out),
                    Ok(v2) => if v2 != TokenView::Nothing {
                        done((v2, vars), c2.out)
                    } else {
                        let c3 = cwv(k, f, s, Map::empty(), c2.out);
                        match c3.result {
                            Err(e) => failed(e, c3.out),
                            Ok(v3) => if v3 != TokenView::Nothing {
                                done((v3, vars), c3.out)
                            } else {
                                eval_run(k, f, s, vars, c3.out)
                            },
                        }
                    },
                }
            },
        }
    }
}

/// A block: its function tokens are evaluated, then its value is found; a
/// block of one token ends the evaluation with that value.
#[verifier::opaque]
pub open spec fn block_step<K: Fn(FloatQuery) -> FloatAnswer>(
    k: K,
    f: nat,
    b: Seq<TokenView>,
    vars: Bindings,
    out: Seq<char>,
) -> Step
    decreases f, 6int, 0int,
{
    let p = block_fns(k, f, b, 0, Seq::empty(), vars, out);
    match p.result {
        Err(e) => Step::Stop(failed(e, p.out)),
        Ok((processed, vars1)) => {
            let r = block_value(k, f, processed, vars1, p.out);
            match r.result {
                Err(e) => Step::Stop(failed(e, r.out)),
                Ok((v, vars2)) => if processed.len() == 1 {
                    Step::Stop(done((v, vars2), r.out))
                } else {
                    Step::Next(0, v, vars2, r.out)
                },
            }
        },
    }
}

/// Runs the method `name` of the class `c` with the arguments `args`: the
/// method's token is evaluated with the fields and the arguments (which win)
/// as variables; a class without that method gives `Nothing`.
#[verifier::opaque]
pub open spec fn run_method_run<K: Fn(FloatQuery) -> FloatAnswer>(
    k: K,
    f: nat,
    c: ClassView,
    name: Seq<char>,
    args: Bindings,
    out: Seq<char>,
) -> Run<TokenView>
    decreases f, 1int, 0int,
{
    if !c.methods.contains_key(name) {
        done(TokenView::Nothing, out)
    } else {
        let r = eval_run(k, f, seq![c.methods[name]], c.fields.union_prefer_right(args), out);
        match r.result {
            Err(e) => failed(e, r.out),
            Ok((v, _)) => done(v, r.out),
        }
    }
}

/// The first pass of `calc_with_variables` from position `i`, with the
/// current value `current` and the tokens `acc` so far: `*`, `/` and `%`
/// are applied at once through the class methods; `+`, `-` and comparisons
/// are kept for the second pass; an operator at the very end keeps the
/// current value twice.
#[verifier::opaque]
pub open spec fn cwv_pass1<K: Fn(FloatQuery) -> FloatAnswer>(
    k: K,
    f: nat,
    t: Seq<TokenView>,
    i: int,
    acc: Seq<TokenView>,
    current: TokenView,
    out: Seq<char>,
) -> Run<Seq<TokenView>>
    decreases f, 2int, t.len() - i,
{
    if i < 0 || i >= t.len() {
        done(acc.push(current), out)
    } else {
        match t[i] {
            TokenView::Symbol(op) => if i + 1 >= t.len() {
                done(acc.push(current).push(current), out)
            } else {
                let next = t[i + 1];
                if op == Symbol::Multiply || op == Symbol::Divide || op == Symbol::Mod {
                    let r = run_method_run(
                        k,
                        f,
                        class_of(k, current),
                        method_of(op),
                        Map::empty().insert("rhs"@, next),
                        out,
                    );
                    match r.result {
                        Err(e) => failed(e, r.out),
                        Ok(c2) => cwv_pass1(k, f, t, i + 2, acc, c2, r.out),
                    }
                } else if op == Symbol::Plus || op == Symbol::Minus || op == Symbol::Is || op == Symbol::Greater
                    || op == Symbol::Less {
                    cwv_pass1(k, f, t, i + 2, acc.push(current).push(TokenView::Symbol(op)), next, out)
                } else {
                    cwv_pass1(k, f, t, i + 2, acc, current, out)
                }
            },
            _ => cwv_pass1(k, f, t, i + 1, acc, current, out),
        }
    }
}

/// The second pass of `calc_with_variables` from position `i`, with the
/// class `cur` of the value so far and the pending comparisons `acc`: `+`
/// and `-` are applied through the class methods; a comparison keeps the
/// formatted value so far and starts again from its right side.
#[verifier::opaque]
pub open spec fn cwv_pass2<K: Fn(FloatQuery) -> FloatAnswer>(
    k: K,
    f: nat,
    rt: Seq<TokenView>,
    i: int,
    acc: Seq<TokenView>,
    cur: ClassView,
    out: Seq<char>,
) -> Run<(Seq<TokenView>, ClassView)>
    decreases f, 2int, rt.len() - i,
{
    if i < 0 || i >= rt.len() {
        done((acc, cur), out)
    } else {
        match rt[i] {
            TokenView::Symbol(op) => if i + 1 >= rt.len() {
                done((acc, cur), out)
            } else {
                let next = rt[i + 1];
                if op == Symbol::Plus || op == Symbol::Minus {
                    let r = run_method_run(k, f, cur, method_of(op), Map::empty().insert("rhs"@, next), out);
                    match r.result {
                        Err(e) => failed(e, r.out),
                        Ok(res) => cwv_pass2(k, f, rt, i + 2, acc, class_of(k, res), r.out),
                    }
                } else if op == Symbol::Is || op == Symbol::Greater || op == Symbol::Less {
                    let r = run_method_run(k, f, cur, "!!format!!"@, Map::empty(), out);
                    match r.result {
                        Err(e) => failed(e, r.out),
                        Ok(fm) => cwv_pass2(
                            k,
                            f,
                            rt,
                            i + 2,
                            acc.push(fm).push(TokenView::Symbol(op)),
                            class_of(k, next),
                            r.out,
                        ),
                    }
                } else {
                    cwv_pass2(k, f, rt, i + 2, acc, cur, out)
                }
            },
            _ => cwv_pass2(k, f, rt, i + 1, acc, cur, out),
        }
    }
}

/// What `calc_with_variables` gives: nothing for no tokens; else, with
/// bound identifiers replaced, the two passes, then the formatted result
/// (see `cwv_finish`).
#[verifier::opaque]
pub open spec fn cwv<K: Fn(FloatQuery) -> FloatAnswer>(
    k: K,
    f: nat,
    tokens: Seq<TokenView>,
    vars: Bindings,
    out: Seq<char>,
) -> Run<TokenView>
    decreases f, 3int, 0int,
{
    if tokens.len() == 0 {
        done(TokenView::Nothing, out)
    } else {
        let t = resolved(tokens, vars);
        let p1 = cwv_pass1(k, f, t, 1, Seq::empty(), t[0], out);
        match p1.result {
            Err(e) => failed(e, p1.out),
            Ok(rt) => {
                let p2 = cwv_pass2(k, f, rt, 1, Seq::empty(), class_of(k, rt[0]), p1.out);
                match p2.result {
                    Err(e) => failed(e, p2.out),
                    Ok((pending, cur)) => {
                        let fr = run_method_run(k, f, cur, "!!format!!"@, Map::empty(), p2.out);
                        match fr.result {
                            Err(e) => failed(e, fr.out),
                            Ok(formatted) => Run { result: cwv_finish(k, pending, formatted), out: fr.out },
                        }
                    },
                }
            },
        }
    }
}

/// What `calc_fi` gives: nothing unless every token (with bound identifiers
/// replaced) is a number or a symbol; with a comparison among them, what
/// `calc_with_variables` gives; else the float arithmetic.
#[verifier::opaque]
pub open spec fn calc_fi_run<K: Fn(FloatQuery) -> FloatAnswer>(
    k: K,
    f: nat,
    tokens: Seq<TokenView>,
    vars: Bindings,
    out: Seq<char>,
) -> Run<TokenView>
    decreases f, 4int, 0int,
{
    let t = resolved(tokens, vars);
    if !all_numeric(t) {
        done(TokenView::Nothing, out)
    } else if has_comparison(t) {
        cwv(k, f, tokens, vars, out)
    } else {
        Run { result: fi_arith(k, t), out }
    }
}



/// Formatting a class with `{}`: its `!!format!!` method runs, then the
/// value it gives is formatted with `{}`, which never returns (a token's
/// `Display` formats the token with itself again), so a run that gets that
/// far goes on for ever (`Stuck`).
pub open spec fn class_text<K: Fn(FloatQuery) -> FloatAnswer>(
    k: K,
    f: nat,
    c: ClassView,
    out: Seq<char>,
) -> Run<Seq<char>> {
    let r = run_method_run(k, f, c, "!!format!!"@, Map::empty(), out);
    match r.result {
        Err(e) => failed(e, r.out),
        Ok(_) => failed(EvalErrorView::Stuck, r.out),
    }
}

} // verus!
