//! Each spec function of the evaluation semantics, and the recursive
//! definitions of parsing, parameter renaming and token equality, unfolded
//! one step. Proofs about the evaluator go through these equations.
use vstd::prelude::*;
use crate::calc::{fi_arith, str_calc, EvalErrorView};
use crate::class::{class_of, ClassView};
use crate::float::{float_order, FloatAnswer, FloatOrder, FloatQuery};
use crate::parser::{debug_lines, debug_text, parse_seq};
use crate::semantics::{
    assign_step, all_numeric, bind_params, block_body, block_fns, block_step, block_value, call_step,
    calc_fi_run, cwv, cwv_finish, cwv_pass1, cwv_pass2, done, eval_from, eval_run, eval_step, failed,
    has_comparison, if_cond, if_step, method_of, not_found_message, param_name, prnt_from, prnt_values, rename_params,
    replace_matching,
    repeat_loop, repeat_message, repeat_step, run_block_at, run_method_run, truthy, falsy, Run, Step,
};
use crate::token::{Symbol, TokenView};
use crate::value::{lists_eq, resolve_one, resolved, seq_eq, subst_tokens, token_eq, Bindings};

verus! {

/// `eval_run` unfolded once.
pub proof fn lemma_eval_run<K: Fn(FloatQuery) -> FloatAnswer>(
    k: K,
    fuel: nat,
    tokens: Seq<TokenView>,
    vars: Bindings,
    out: Seq<char>,
)
    ensures
        eval_run(k, fuel, tokens, vars, out) == ({
            if fuel == 0 {
                failed(EvalErrorView::Exhausted, out)
            } else {
                eval_from(k, (fuel - 1) as nat, tokens, 0, TokenView::Integer(0), vars, out)
            }
        }),
{
    reveal(eval_run);
    reveal(eval_from);
}

/// `eval_from` unfolded once.
pub proof fn lemma_eval_from<K: Fn(FloatQuery) -> FloatAnswer>(
    k: K,
    f: nat,
    tokens: Seq<TokenView>,
    i: int,
    last: TokenView,
    vars: Bindings,
    out: Seq<char>,
)
    ensures
        eval_from(k, f, tokens, i, last, vars, out) == ({
            if i < 0 || i >= tokens.len() {
                done((last, vars), out)
            } else {
                match eval_step(k, f, tokens, i, resolve_one(tokens[i], vars), last, vars, out) {
                    Step::Next(adv, last2, vars2, out2) => if i + 1 + adv >= tokens.len() {
                        done((last2, vars2), out2)
                    } else {
                        eval_from(k, f, tokens, i + 1 + adv, last2, vars2, out2)
                    },
                    Step::Stop(run) => run,
                }
            }
        }),
{
    reveal(eval_from);
    reveal(eval_step);
}

/// `eval_step` unfolded once.
pub proof fn lemma_eval_step<K: Fn(FloatQuery) -> FloatAnswer>(
    k: K,
    f: nat,
    tokens: Seq<TokenView>,
    i: int,
    token: TokenView,
    last: TokenView,
    vars: Bindings,
    out: Seq<char>,
)
    ensures
        eval_step(k, f, tokens, i, token, last, vars, out) == ({
            match token {
                TokenView::Integer(_) | TokenView::Float(_) | TokenView::String(_) | TokenView::Boolean(_) => {
                    if i + 1 >= tokens.len() || !(tokens[i + 1] is Symbol) {
                        Step::Stop(done((token, vars), out))
                    } else {
                        Step::Next(0, token, vars, out)
                    }
                },
                TokenView::Symbol(Symbol::Equal) => assign_step(k, f, tokens, i, last, vars, out),
                TokenView::Function(name, args) => call_step(k, f, tokens, i, name, args, vars, out),
                TokenView::If(c) => if_step(k, f, tokens, i, c, last, vars, out),
                TokenView::Repeat(c) => repeat_step(k, f, tokens, i, c, last, vars, out),
                TokenView::Block(b) => block_step(k, f, b, vars, out),
                _ => Step::Next(0, last, vars, out),
            }
        }),
{
    reveal(eval_step);
    reveal(assign_step);
    reveal(call_step);
    reveal(if_step);
    reveal(repeat_step);
    reveal(block_step);
}

/// `assign_step` unfolded once.
pub proof fn lemma_assign_step<K: Fn(FloatQuery) -> FloatAnswer>(
    k: K,
    f: nat,
    tokens: Seq<TokenView>,
    i: int,
    last: TokenView,
    vars: Bindings,
    out: Seq<char>,
)
    ensures
        assign_step(k, f, tokens, i, last, vars, out) == ({
            if i <= 0 {
                Step::Stop(failed(EvalErrorView::Fault, out))
            } else {
                Step::Stop(failed(EvalErrorView::Stuck, out))
            }
        }),
{
    reveal(assign_step);
}

/// `call_step` unfolded once.
pub proof fn lemma_call_step<K: Fn(FloatQuery) -> FloatAnswer>(
    k: K,
    f: nat,
    tokens: Seq<TokenView>,
    i: int,
    name: Seq<char>,
    args: Seq<Seq<TokenView>>,
    vars: Bindings,
    out: Seq<char>,
)
    ensures
        call_step(k, f, tokens, i, name, args, vars, out) == ({
            if name == "prnt"@ {
                let r = prnt_from(k, f, args, 0, vars, out);
                match r.result {
                    Err(e) => Step::Stop(failed(e, r.out)),
                    Ok(_) => Step::Next(0, TokenView::Integer(0), vars, r.out.push('\n')),
                }
            } else if i + 1 < tokens.len() {
                match tokens[i + 1] {
                    TokenView::Block(body) => match rename_params(k, body, args, 0) {
                        None => Step::Stop(failed(EvalErrorView::Fault, out)),
                        Some(b) => Step::Next(1, TokenView::Integer(0), vars.insert(name, TokenView::Block(b)), out),
                    },
                    _ => Step::Next(1, TokenView::Integer(0), vars, out),
                }
            } else if vars.contains_key(name) && vars[name] is Block {
                Step::Stop(done((vars[name], bind_params(vars, args, 0)), out))
            } else {
                Step::Stop(failed(EvalErrorView::Reported(not_found_message(name)), out))
            }
        }),
{
    reveal(call_step);
    reveal(prnt_from);
}

/// `prnt_from` unfolded once.
pub proof fn lemma_prnt_from<K: Fn(FloatQuery) -> FloatAnswer>(
    k: K,
    f: nat,
    args: Seq<Seq<TokenView>>,
    j: int,
    vars: Bindings,
    out: Seq<char>,
)
    ensures
        prnt_from(k, f, args, j, vars, out) == ({
            if j < 0 || j >= args.len() {
                done((), out)
            } else {
                let changed = prnt_values(args[j], vars);
                let c = cwv(k, f, changed, Map::empty(), out);
                match c.result {
                    Err(e) => failed(e, c.out),
                    Ok(v) => if v == TokenView::Nothing {
                        let r = eval_run(k, f, changed, vars, c.out);
                        match r.result {
                            Err(e) => failed(e, r.out),
                            Ok(_) => failed(EvalErrorView::Stuck, r.out),
                        }
                    } else {
                        failed(EvalErrorView::Stuck, c.out)
                    },
                }
            }
        }),
{
    reveal(prnt_from);
    reveal(eval_run);
    reveal(cwv);
}

/// `if_cond` unfolded once.
pub proof fn lemma_if_cond<K: Fn(FloatQuery) -> FloatAnswer>(
    k: K,
    f: nat,
    c: Seq<TokenView>,
    vars: Bindings,
    out: Seq<char>,
)
    ensures
        if_cond(k, f, c, vars, out) == ({
            let s = subst_tokens(c, vars);
            if s.len() == 1 {
                done((s[0], vars), out)
            } else {
                let cv = cwv(k, f, s, vars, out);
                match cv.result {
                    Err(e) => failed(e, cv.out),
                    Ok(v) => if v == TokenView::Nothing {
                        eval_run(k, f, s, vars, cv.out)
                    } else {
                        done((v, vars), cv.out)
                    },
                }
            }
        }),
{
    reveal(if_cond);
    reveal(eval_run);
    reveal(cwv);
}

/// `run_block_at` unfolded once.
pub proof fn lemma_run_block_at<K: Fn(FloatQuery) -> FloatAnswer>(
    k: K,
    f: nat,
    tokens: Seq<TokenView>,
    j: int,
    vars: Bindings,
    out: Seq<char>,
)
    ensures
        run_block_at(k, f, tokens, j, vars, out) == ({
            if 0 <= j < tokens.len() && tokens[j] is Block {
                let r = eval_run(k, f, block_body(tokens[j]), vars, out);
                match r.result {
                    Err(e) => failed(e, r.out),
                    Ok((_, v)) => done(v, r.out),
                }
            } else {
                done(vars, out)
            }
        }),
{
    reveal(run_block_at);
    reveal(eval_run);
}

/// `if_step` unfolded once.
pub proof fn lemma_if_step<K: Fn(FloatQuery) -> FloatAnswer>(
    k: K,
    f: nat,
    tokens: Seq<TokenView>,
    i: int,
    c: Seq<TokenView>,
    last: TokenView,
    vars: Bindings,
    out: Seq<char>,
)
    ensures
        if_step(k, f, tokens, i, c, last, vars, out) == ({
            let cr = if_cond(k, f, c, vars, out);
            match cr.result {
                Err(e) => Step::Stop(failed(e, cr.out)),
                Ok((cond, vars1)) => {
                    let r1 = if truthy(cond) {
                        run_block_at(k, f, tokens, i + 1, vars1, cr.out)
                    } else {
                        done(vars1, cr.out)
                    };
                    match r1.result {
                        Err(e) => Step::Stop(failed(e, r1.out)),
                        Ok(vars2) => if falsy(cond) && i + 2 < tokens.len() && tokens[i + 2] == TokenView::Else {
                            let r2 = run_block_at(k, f, tokens, i + 3, vars2, r1.out);
                            match r2.result {
                                Err(e) => Step::Stop(failed(e, r2.out)),
                                Ok(vars3) => Step::Next(3, last, vars3, r2.out),
                            }
                        } else {
                            Step::Next(1, last, vars2, r1.out)
                        },
                    }
                },
            }
        }),
{
    reveal(if_step);
    reveal(if_cond);
    reveal(run_block_at);
}

/// `repeat_loop` unfolded once.
pub proof fn lemma_repeat_loop<K: Fn(FloatQuery) -> FloatAnswer>(
    k: K,
    f: nat,
    body: Seq<TokenView>,
    n: int,
    vars: Bindings,
    out: Seq<char>,
)
    ensures
        repeat_loop(k, f, body, n, vars, out) == ({
            if n <= 0 {
                done(vars, out)
            } else {
                let r = eval_run(k, f, body, vars, out);
                match r.result {
                    Err(e) => failed(e, r.out),
                    Ok((_, v)) => repeat_loop(k, f, body, n - 1, v, r.out),
                }
            }
        }),
{
    reveal(repeat_loop);
    reveal(eval_run);
}

/// `repeat_step` unfolded once.
pub proof fn lemma_repeat_step<K: Fn(FloatQuery) -> FloatAnswer>(
    k: K,
    f: nat,
    tokens: Seq<TokenView>,
    i: int,
    c: Seq<TokenView>,
    last: TokenView,
    vars: Bindings,
    out: Seq<char>,
)
    ensures
        repeat_step(k, f, tokens, i, c, last, vars, out) == ({
            let cv = cwv(k, f, c, vars, out);
            match cv.result {
                Err(e) => Step::Stop(failed(e, cv.out)),
                Ok(count) => if i + 1 < tokens.len() && tokens[i + 1] is Block {
                    match count {
                        TokenView::Integer(n) => {
                            let r = repeat_loop(k, f, block_body(tokens[i + 1]), n as int, vars, cv.out);
                            match r.result {
                                Err(e) => Step::Stop(failed(e, r.out)),
                                Ok(v) => Step::Next(1, last, v, r.out),
                            }
                        },
                        _ => Step::Stop(failed(EvalErrorView::Reported(repeat_message()), cv.out)),
                    }
                } else {
                    Step::Next(1, last, vars, cv.out)
                },
            }
        }),
{
    reveal(repeat_step);
    reveal(repeat_loop);
    reveal(cwv);
}

/// `block_fns` unfolded once.
pub proof fn lemma_block_fns<K: Fn(FloatQuery) -> FloatAnswer>(
    k: K,
    f: nat,
    b: Seq<TokenView>,
    j: int,
    acc: Seq<TokenView>,
    vars: Bindings,
    out: Seq<char>,
)
    ensures
        block_fns(k, f, b, j, acc, vars, out) == ({
            if j < 0 || j >= b.len() {
                done((acc, vars), out)
            } else if b[j] is Function {
                let r = eval_run(k, f, seq![b[j]], vars, out);
                match r.result {
                    Err(e) => failed(e, r.out),
                    Ok((res, v)) => block_fns(k, f, b, j + 1, acc.push(res), v, r.out),
                }
            } else {
                block_fns(k, f, b, j + 1, acc.push(b[j]), vars, out)
            }
        }),
{
    reveal(block_fns);
    reveal(eval_run);
}

/// `block_value` unfolded once.
pub proof fn lemma_block_value<K: Fn(FloatQuery) -> FloatAnswer>(
    k: K,
    f: nat,
    p: Seq<TokenView>,
    vars: Bindings,
    out: Seq<char>,
)
    ensures
        block_value(k, f, p, vars, out) == ({
            if p.len() == 0 {
                done((TokenView::Integer(0), vars), out)
            } else if p[0] is String {
                match str_calc(p, vars) {
                    Err(e) => failed(e, out),
                    Ok(c) => if c == TokenView::Nothing {
                        eval_run(k, f, p, vars, out)
                    } else {
                        done((c, vars), out)
                    },
                }
            } else {
                let s = subst_tokens(p, vars);
                let c1 = calc_fi_run(k, f, s, vars, out);
                match c1.result {
                    Err(e) => failed(e, c1.out),
                    Ok(v1) => if v1 != TokenView::Nothing {
                        done((v1, vars), c1.out)
                    } else {
                        let c2 = cwv(k, f, s, vars, c1.out);
                        match c2.result {
                            Err(e) => failed(e, c2.out),
                            Ok(v2) => if v2 != TokenView::Nothing {
                                done((v2, vars), c2.out)
                            } else {
                                let c3 = cwv(k, f, s, Map::empty(), c2.out);
                                match c3.result {
                                    Err(e) => failed(e, c3.out),
                                    Ok(v3) => if v3 != TokenView::Nothing {
                                        done((v3, vars), c3.out)
                                    } else {
                                        eval_run(k, f, s, vars, c3.out)
                                    },
                                }
                            },
                        }
                    },
                }
            }
        }),
{
    reveal(block_value);
    reveal(eval_run);
    reveal(cwv);
    reveal(calc_fi_run);
}

/// `block_step` unfolded once.
pub proof fn lemma_block_step<K: Fn(FloatQuery) -> FloatAnswer>(
    k: K,
    f: nat,
    b: Seq<TokenView>,
    vars: Bindings,
    out: Seq<char>,
)
    ensures
        block_step(k, f, b, vars, out) == ({
            let p = block_fns(k, f, b, 0, Seq::empty(), vars, out);
            match p.result {
                Err(e) => Step::Stop(failed(e, p.out)),
                Ok((processed, vars1)) => {
                    let r = block_value(k, f, processed, vars1, p.out);
                    match r.result {
                        Err(e) => Step::Stop(failed(e, r.out)),
                        Ok((v, vars2)) => if processed.len() == 1 {
                            Step::Stop(done((v, vars2), r.out))
                        } else {
                            Step::Next(0, v, vars2, r.out)
                        },
                    }
                },
            }
        }),
{
    reveal(block_step);
    reveal(block_fns);
    reveal(block_value);
}

/// `run_method_run` unfolded once.
pub proof fn lemma_run_method_run<K: Fn(FloatQuery) -> FloatAnswer>(
    k: K,
    f: nat,
    c: ClassView,
    name: Seq<char>,
    args: Bindings,
    out: Seq<char>,
)
    ensures
        run_method_run(k, f, c, name, args, out) == ({
            if !c.methods.contains_key(name) {
                done(TokenView::Nothing, out)
            } else {
                let r = eval_run(k, f, seq![c.methods[name]], c.fields.union_prefer_right(args), out);
                match r.result {
                    Err(e) => failed(e, r.out),
                    Ok((v, _)) => done(v, r.out),
                }
            }
        }),
{
    reveal(run_method_run);
    reveal(eval_run);
}

/// `cwv_pass1` unfolded once.
pub proof fn lemma_cwv_pass1<K: Fn(FloatQuery) -> FloatAnswer>(
    k: K,
    f: nat,
    t: Seq<TokenView>,
    i: int,
    acc: Seq<TokenView>,
    current: TokenView,
    out: Seq<char>,
)
    ensures
        cwv_pass1(k, f, t, i, acc, current, out) == ({
            if i < 0 || i >= t.len() {
                done(acc.push(current), out)
            } else {
                match t[i] {
                    TokenView::Symbol(op) => if i + 1 >= t.len() {
                        done(acc.push(current).push(current), out)
                    } else {
                        let next = t[i + 1];
                        if op == Symbol::Multiply || op == Symbol::Divide || op == Symbol::Mod {
                            let r = run_method_run(
                                k,
                                f,
                                class_of(k, current),
                                method_of(op),
                                Map::empty().insert("rhs"@, next),
                                out,
                            );
                            match r.result {
                                Err(e) => failed(e, r.out),
                                Ok(c2) => cwv_pass1(k, f, t, i + 2, acc, c2, r.out),
                            }
                        } else if op == Symbol::Plus || op == Symbol::Minus || op == Symbol::Is || op == Symbol::Greater
                            || op == Symbol::Less {
                            cwv_pass1(k, f, t, i + 2, acc.push(current).push(TokenView::Symbol(op)), next, out)
                        } else {
                            cwv_pass1(k, f, t, i + 2, acc, current, out)
                        }
                    },
                    _ => cwv_pass1(k, f, t, i + 1, acc, current, out),
                }
            }
        }),
{
    reveal(cwv_pass1);
    reveal(run_method_run);
}

/// `cwv_pass2` unfolded once.
pub proof fn lemma_cwv_pass2<K: Fn(FloatQuery) -> FloatAnswer>(
    k: K,
    f: nat,
    rt: Seq<TokenView>,
    i: int,
    acc: Seq<TokenView>,
    cur: ClassView,
    out: Seq<char>,
)
    ensures
        cwv_pass2(k, f, rt, i, acc, cur, out) == ({
            if i < 0 || i >= rt.len() {
                done((acc, cur), out)
            } else {
                match rt[i] {
                    TokenView::Symbol(op) => if i + 1 >= rt.len() {
                        done((acc, cur), out)
                    } else {
                        let next = rt[i + 1];
                        if op == Symbol::Plus || op == Symbol::Minus {
                            let r = run_method_run(k, f, cur, method_of(op), Map::empty().insert("rhs"@, next), out);
                            match r.result {
                                Err(e) => failed(e, r.out),
                                Ok(res) => cwv_pass2(k, f, rt, i + 2, acc, class_of(k, res), r.out),
                            }
                        } else if op == Symbol::Is || op == Symbol::Greater || op == Symbol::Less {
                            let r = run_method_run(k, f, cur, "!!format!!"@, Map::empty(), out);
                            match r.result {
                                Err(e) => failed(e, r.out),
                                Ok(fm) => cwv_pass2(
                                    k,
                                    f,
                                    rt,
                                    i + 2,
                                    acc.push(fm).push(TokenView::Symbol(op)),
                                    class_of(k, next),
                                    r.out,
                                ),
                            }
                        } else {
                            cwv_pass2(k, f, rt, i + 2, acc, cur, out)
                        }
                    },
                    _ => cwv_pass2(k, f, rt, i + 1, acc, cur, out),
                }
            }
        }),
{
    reveal(cwv_pass2);
    reveal(run_method_run);
}

/// `cwv` unfolded once.
pub proof fn lemma_cwv<K: Fn(FloatQuery) -> FloatAnswer>(
    k: K,
    f: nat,
    tokens: Seq<TokenView>,
    vars: Bindings,
    out: Seq<char>,
)
    ensures
        cwv(k, f, tokens, vars, out) == ({
            if tokens.len() == 0 {
                done(TokenView::Nothing, out)
            } else {
                let t = resolved(tokens, vars);
                let p1 = cwv_pass1(k, f, t, 1, Seq::empty(), t[0], out);
                match p1.result {
                    Err(e) => failed(e, p1.out),
                    Ok(rt) => {
                        let p2 = cwv_pass2(k, f, rt, 1, Seq::empty(), class_of(k, rt[0]), p1.out);
                        match p2.result {
                            Err(e) => failed(e, p2.out),
                            Ok((pending, cur)) => {
                                let fr = run_method_run(k, f, cur, "!!format!!"@, Map::empty(), p2.out);
                                match fr.result {
                                    Err(e) => failed(e, fr.out),
                                    Ok(formatted) => Run { result: cwv_finish(k, pending, formatted), out: fr.out },
                                }
                            },
                        }
                    },
                }
            }
        }),
{
    reveal(cwv);
    reveal(run_method_run);
    reveal(cwv_pass1);
    reveal(cwv_pass2);
}

/// `calc_fi_run` unfolded once.
pub proof fn lemma_calc_fi_run<K: Fn(FloatQuery) -> FloatAnswer>(
    k: K,
    f: nat,
    tokens: Seq<TokenView>,
    vars: Bindings,
    out: Seq<char>,
)
    ensures
        calc_fi_run(k, f, tokens, vars, out) == ({
            let t = resolved(tokens, vars);
            if !all_numeric(t) {
                done(TokenView::Nothing, out)
            } else if has_comparison(t) {
                cwv(k, f, tokens, vars, out)
            } else {
                Run { result: fi_arith(k, t), out }
            }
        }),
{
    reveal(calc_fi_run);
    reveal(cwv);
}

/// `parse_seq` unfolded once.
pub proof fn lemma_parse_seq<K: Fn(FloatQuery) -> FloatAnswer>(k: K, tokens: Seq<TokenView>, out: Seq<char>)
    ensures
        parse_seq(k, tokens, out) == ({
            if tokens.len() == 0 {
                (TokenView::Integer(0), out)
            } else {
                let rest = tokens.subrange(1, tokens.len() as int);
                match tokens[0] {
                    TokenView::Integer(_) | TokenView::Float(_) | TokenView::String(_) | TokenView::Boolean(_)
                    | TokenView::Identifier(_) => (tokens[0], out),
                    TokenView::Function(name, args) => {
                        let out2 = if name == "prnt"@ {
                            debug_lines(k, args, out)
                        } else {
                            out
                        };
                        parse_seq(k, rest, out2)
                    },
                    _ => parse_seq(k, rest, out),
                }
            }
        }),
{
}

/// `debug_lines` unfolded once.
pub proof fn lemma_debug_lines<K: Fn(FloatQuery) -> FloatAnswer>(k: K, args: Seq<Seq<TokenView>>, out: Seq<char>)
    ensures
        debug_lines(k, args, out) == ({
            if args.len() == 0 {
                out
            } else {
                let (v, out2) = parse_seq(k, args[0], out);
                debug_lines(k, args.subrange(1, args.len() as int), out2 + debug_text(k, v) + seq!['\n'])
            }
        }),
{
}

/// `rename_params` unfolded once.
pub proof fn lemma_rename_params<K: Fn(FloatQuery) -> FloatAnswer>(k: K, body: Seq<TokenView>, args: Seq<Seq<TokenView>>, n: int)
    ensures
        rename_params(k, body, args, n) == ({
            if n < 0 || n >= args.len() {
                Some(body)
            } else if args[n].len() == 0 {
                if body.len() == 0 {
                    rename_params(k, body, args, n + 1)
                } else {
                    None
                }
            } else {
                rename_params(k, replace_matching(k, body, args[n][0], param_name(n)), args, n + 1)
            }
        }),
{
}

/// `token_eq` unfolded once.
pub proof fn lemma_token_eq<K: Fn(FloatQuery) -> FloatAnswer>(k: K, a: TokenView, b: TokenView)
    ensures
        token_eq(k, a, b) == ({
            match a {
                TokenView::Integer(x) => b == TokenView::Integer(x),
                TokenView::Float(x) => match b {
                    TokenView::Float(y) => float_order(k, x, y) == FloatOrder::Equal,
                    _ => false,
                },
                TokenView::String(x) => b == TokenView::String(x),
                TokenView::Function(n, x) => match b {
                    TokenView::Function(m, y) => n == m && lists_eq(k, x, y),
                    _ => false,
                },
                TokenView::Boolean(x) => b == TokenView::Boolean(x),
                TokenView::Identifier(x) => b == TokenView::Identifier(x),
                TokenView::Symbol(x) => b == TokenView::Symbol(x),
                TokenView::Block(x) => match b {
                    TokenView::Block(y) => seq_eq(k, x, y),
                    _ => false,
                },
                TokenView::Array(x) => match b {
                    TokenView::Array(y) => lists_eq(k, x, y),
                    _ => false,
                },
                TokenView::Repeat(x) => match b {
                    TokenView::Repeat(y) => seq_eq(k, x, y),
                    _ => false,
                },
                TokenView::Return(x) => match b {
                    TokenView::Return(y) => seq_eq(k, x, y),
                    _ => false,
                },
                TokenView::Include(x) => b == TokenView::Include(x),
                TokenView::If(x) => match b {
                    TokenView::If(y) => seq_eq(k, x, y),
                    _ => false,
                },
                TokenView::Else => b == TokenView::Else,
                TokenView::Nothing => b == TokenView::Nothing,
            }
        }),
{
}

/// `seq_eq` unfolded once.
pub proof fn lemma_seq_eq_once<K: Fn(FloatQuery) -> FloatAnswer>(k: K, a: Seq<TokenView>, b: Seq<TokenView>)
    ensures
        seq_eq(k, a, b) == ({
            if a.len() == 0 {
                b.len() == 0
            } else {
                &&& b.len() == a.len()
                &&& token_eq(k, a[0], b[0])
                &&& seq_eq(k, a.subrange(1, a.len() as int), b.subrange(1, b.len() as int))
            }
        }),
{
}

/// `lists_eq` unfolded once.
pub proof fn lemma_lists_eq_once<K: Fn(FloatQuery) -> FloatAnswer>(k: K, a: Seq<Seq<TokenView>>, b: Seq<Seq<TokenView>>)
    ensures
        lists_eq(k, a, b) == ({
            if a.len() == 0 {
                b.len() == 0
            } else {
                &&& b.len() == a.len()
                &&& seq_eq(k, a[0], b[0])
                &&& lists_eq(k, a.subrange(1, a.len() as int), b.subrange(1, b.len() as int))
            }
        }),
{
}

} // verus!
