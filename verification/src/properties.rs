//! Laws of the library: what evaluation keeps, how often `repet` runs its
//! body, what a lookup gives back after a binding, round trips of number
//! text and argument lists, and string arithmetic.
use vstd::prelude::*;
use crate::calc::{lemma_repeat_len, repeat_text, str_calc, EvalErrorView};
use crate::class::class_of;
use crate::float::{float_order, parse_float, FloatAnswer, FloatOrder, FloatQuery};
use crate::semantics::{greater_message, less_message};
use crate::semantics::{
    all_numeric, assign_step, bind_params, block_body, block_fns, block_step, block_value,
    call_step, calc_fi_run, cwv, cwv_pass1, cwv_pass2, eval_from, eval_run, eval_step,
    has_comparison, if_cond, if_step, method_of, prnt_from, prnt_values, repeat_loop, repeat_step,
    run_block_at, run_method_run, truthy, Run, Step,
};
use crate::token::{Symbol, TokenView};
use crate::tokenizer::{
    commas_apart, lex_loop, lex_round, remove_comma_spec, split_commas, stage_array, stage_block, stage_e,
    stage_i, stage_ident, stage_match, stage_quote, stage_r, stage_tf, tokenize_spec, LexOutcome, TokenizeErrorView,
};
use crate::text::{alphabetic_char, numeric_char};
use crate::parser::parse_seq;
use crate::unfold::{
    lemma_assign_step, lemma_block_fns, lemma_block_step, lemma_block_value, lemma_call_step,
    lemma_calc_fi_run, lemma_cwv, lemma_cwv_pass1, lemma_cwv_pass2, lemma_eval_from, lemma_eval_run,
    lemma_eval_step, lemma_if_cond, lemma_if_step, lemma_prnt_from, lemma_repeat_loop, lemma_repeat_step,
    lemma_run_block_at, lemma_run_method_run,
};
use crate::value::{resolve_one, resolved, subst_lists, subst_token, subst_tokens, Bindings};
use crate::number::{all_digits, digit_char, digit_value, digits_value, int_text, is_digit, nat_text, parse_isize_spec, sign_len};
use crate::class::ClassView;
use crate::utils::{added_entry, find_entry, key_match, looked_up};
use crate::value::token_eq;

verus! {

/// A finished evaluation still binds every variable of `vars`.
pub open spec fn keeps(vars: Bindings, run: Run<(TokenView, Bindings)>) -> bool {
    match run.result {
        Ok(p) => vars.dom().subset_of(p.1.dom()),
        Err(_) => true,
    }
}

/// A round of the evaluation loop appended to `out` and kept the variables
/// of `vars`.
pub open spec fn step_keeps(vars: Bindings, out: Seq<char>, st: Step) -> bool {
    match st {
        Step::Next(_, _, v2, o2) => out.is_prefix_of(o2) && vars.dom().subset_of(v2.dom()),
        Step::Stop(run) => out.is_prefix_of(run.out) && keeps(vars, run),
    }
}

proof fn lemma_prefix_refl(a: Seq<char>)
    ensures
        a.is_prefix_of(a),
{
    assert(a.subrange(0, a.len() as int) =~= a);
}

proof fn lemma_prefix_trans(a: Seq<char>, b: Seq<char>, c: Seq<char>)
    requires
        a.is_prefix_of(b),
        b.is_prefix_of(c),
    ensures
        a.is_prefix_of(c),
{
    assert(c.subrange(0, a.len() as int) =~= b.subrange(0, a.len() as int));
}

proof fn lemma_prefix_push(a: Seq<char>, c: char)
    ensures
        a.is_prefix_of(a.push(c)),
{
    assert(a.push(c).subrange(0, a.len() as int) =~= a);
}

proof fn lemma_bind_keeps(vars: Bindings, args: Seq<Seq<TokenView>>, n: int)
    ensures
        vars.dom().subset_of(bind_params(vars, args, n).dom()),
    decreases args.len() - n,
{
    if 0 <= n < args.len() {
        let v2 = vars.insert(crate::semantics::param_name(n), TokenView::Block(args[n]));
        lemma_bind_keeps(v2, args, n + 1);
    }
}

proof fn lemma_eval_run_keeps<K: Fn(FloatQuery) -> FloatAnswer>(
    k: K,
    fuel: nat,
    tokens: Seq<TokenView>,
    vars: Bindings,
    out: Seq<char>,
)
    ensures
        out.is_prefix_of(eval_run(k, fuel, tokens, vars, out).out),
        keeps(vars, eval_run(k, fuel, tokens, vars, out)),
    decreases fuel, 0int, 0int,
{
    lemma_eval_run(k, fuel, tokens, vars, out);
    if fuel == 0 {
        lemma_prefix_refl(out);
    } else {
        lemma_eval_from_keeps(k, (fuel - 1) as nat, tokens, 0, TokenView::Integer(0), vars, out);
    }
}

proof fn lemma_eval_from_keeps<K: Fn(FloatQuery) -> FloatAnswer>(
    k: K,
    f: nat,
    tokens: Seq<TokenView>,
    i: int,
    last: TokenView,
    vars: Bindings,
    out: Seq<char>,
)
    ensures
        out.is_prefix_of(eval_from(k, f, tokens, i, last, vars, out).out),
        keeps(vars, eval_from(k, f, tokens, i, last, vars, out)),
    decreases f, 8int, tokens.len() - i,
{
    lemma_eval_from(k, f, tokens, i, last, vars, out);
    if i < 0 || i >= tokens.len() {
        lemma_prefix_refl(out);
    } else {
        let token = resolve_one(tokens[i], vars);
        lemma_eval_step_keeps(k, f, tokens, i, token, last, vars, out);
        match eval_step(k, f, tokens, i, token, last, vars, out) {
            Step::Next(adv, last2, vars2, out2) => {
                if i + 1 + adv < tokens.len() {
                    lemma_eval_from_keeps(k, f, tokens, i + 1 + adv, last2, vars2, out2);
                    lemma_prefix_trans(out, out2, eval_from(k, f, tokens, i + 1 + adv, last2, vars2, out2).out);
                }
            },
            Step::Stop(_) => {},
        }
    }
}

proof fn lemma_eval_step_keeps<K: Fn(FloatQuery) -> FloatAnswer>(
    k: K,
    f: nat,
    tokens: Seq<TokenView>,
    i: int,
    token: TokenView,
    last: TokenView,
    vars: Bindings,
    out: Seq<char>,
)
    ensures
        step_keeps(vars, out, eval_step(k, f, tokens, i, token, last, vars, out)),
    decreases f, 7int, 0int,
{
    lemma_eval_step(k, f, tokens, i, token, last, vars, out);
    lemma_prefix_refl(out);
    match token {
        TokenView::Integer(_) | TokenView::Float(_) | TokenView::String(_) | TokenView::Boolean(_) => {},
        TokenView::Symbol(Symbol::Equal) => lemma_assign_step_keeps(k, f, tokens, i, last, vars, out),
        TokenView::Function(name, args) => lemma_call_step_keeps(k, f, tokens, i, name, args, vars, out),
        TokenView::If(c) => lemma_if_step_keeps(k, f, tokens, i, c, last, vars, out),
        TokenView::Repeat(c) => lemma_repeat_step_keeps(k, f, tokens, i, c, last, vars, out),
        TokenView::Block(b) => lemma_block_step_keeps(k, f, b, vars, out),
        _ => {},
    }
}

proof fn lemma_assign_step_keeps<K: Fn(FloatQuery) -> FloatAnswer>(
    k: K,
    f: nat,
    tokens: Seq<TokenView>,
    i: int,
    last: TokenView,
    vars: Bindings,
    out: Seq<char>,
)
    ensures
        step_keeps(vars, out, assign_step(k, f, tokens, i, last, vars, out)),
{
    lemma_assign_step(k, f, tokens, i, last, vars, out);
    lemma_prefix_refl(out);
}

proof fn lemma_call_step_keeps<K: Fn(FloatQuery) -> FloatAnswer>(
    k: K,
    f: nat,
    tokens: Seq<TokenView>,
    i: int,
    name: Seq<char>,
    args: Seq<Seq<TokenView>>,
    vars: Bindings,
    out: Seq<char>,
)
    ensures
        step_keeps(vars, out, call_step(k, f, tokens, i, name, args, vars, out)),
    decreases f, 5int, 0int,
{
    lemma_call_step(k, f, tokens, i, name, args, vars, out);
    lemma_prefix_refl(out);
    if name == "prnt"@ {
        let r = prnt_from(k, f, args, 0, vars, out);
        lemma_prnt_from_grows(k, f, args, 0, vars, out);
        lemma_prefix_push(r.out, '\n');
        lemma_prefix_trans(out, r.out, r.out.push('\n'));
    } else {
        lemma_bind_keeps(vars, args, 0);
    }
}

proof fn lemma_prnt_from_grows<K: Fn(FloatQuery) -> FloatAnswer>(
    k: K,
    f: nat,
    args: Seq<Seq<TokenView>>,
    j: int,
    vars: Bindings,
    out: Seq<char>,
)
    ensures
        out.is_prefix_of(prnt_from(k, f, args, j, vars, out).out),
    decreases f, 4int, args.len() - j,
{
    lemma_prnt_from(k, f, args, j, vars, out);
    lemma_prefix_refl(out);
    if 0 <= j < args.len() {
        let changed = prnt_values(args[j], vars);
        let c = cwv(k, f, changed, Map::empty(), out);
        lemma_cwv_grows(k, f, changed, Map::empty(), out);
        match c.result {
            Err(_) => {},
            Ok(v) => if v == TokenView::Nothing {
                let r = eval_run(k, f, changed, vars, c.out);
                lemma_eval_run_keeps(k, f, changed, vars, c.out);
                lemma_prefix_trans(out, c.out, r.out);
            }
        }
    }
}

proof fn lemma_if_cond_keeps<K: Fn(FloatQuery) -> FloatAnswer>(
    k: K,
    f: nat,
    c: Seq<TokenView>,
    vars: Bindings,
    out: Seq<char>,
)
    ensures
        out.is_prefix_of(if_cond(k, f, c, vars, out).out),
        keeps(vars, if_cond(k, f, c, vars, out)),
    decreases f, 4int, 0int,
{
    lemma_if_cond(k, f, c, vars, out);
    lemma_prefix_refl(out);
    let s = subst_tokens(c, vars);
    if s.len() != 1 {
        let cv = cwv(k, f, s, vars, out);
        lemma_cwv_grows(k, f, s, vars, out);
        lemma_eval_run_keeps(k, f, s, vars, cv.out);
        lemma_prefix_trans(out, cv.out, eval_run(k, f, s, vars, cv.out).out);
    }
}

proof fn lemma_run_block_at_keeps<K: Fn(FloatQuery) -> FloatAnswer>(
    k: K,
    f: nat,
    tokens: Seq<TokenView>,
    j: int,
    vars: Bindings,
    out: Seq<char>,
)
    ensures
        out.is_prefix_of(run_block_at(k, f, tokens, j, vars, out).out),
        match run_block_at(k, f, tokens, j, vars, out).result {
            Ok(v) => vars.dom().subset_of(v.dom()),
            Err(_) => true,
        },
    decreases f, 2int, 0int,
{
    lemma_run_block_at(k, f, tokens, j, vars, out);
    lemma_prefix_refl(out);
    if 0 <= j < tokens.len() && tokens[j] is Block {
        lemma_eval_run_keeps(k, f, block_body(tokens[j]), vars, out);
    }
}

proof fn lemma_if_step_keeps<K: Fn(FloatQuery) -> FloatAnswer>(
    k: K,
    f: nat,
    tokens: Seq<TokenView>,
    i: int,
    c: Seq<TokenView>,
    last: TokenView,
    vars: Bindings,
    out: Seq<char>,
)
    ensures
        step_keeps(vars, out, if_step(k, f, tokens, i, c, last, vars, out)),
    decreases f, 5int, 0int,
{
    lemma_if_step(k, f, tokens, i, c, last, vars, out);
    let cr = if_cond(k, f, c, vars, out);
    lemma_if_cond_keeps(k, f, c, vars, out);
    match cr.result {
        Err(_) => {},
        Ok((cond, vars1)) => {
            lemma_run_block_at_keeps(k, f, tokens, i + 1, vars1, cr.out);
            lemma_prefix_refl(cr.out);
            let r1 = if truthy(cond) {
                run_block_at(k, f, tokens, i + 1, vars1, cr.out)
            } else {
                Run { result: Ok(vars1), out: cr.out }
            };
            lemma_prefix_trans(out, cr.out, r1.out);
            match r1.result {
                Err(_) => {},
                Ok(vars2) => {
                    lemma_run_block_at_keeps(k, f, tokens, i + 3, vars2, r1.out);
                    let r2 = run_block_at(k, f, tokens, i + 3, vars2, r1.out);
                    lemma_prefix_trans(out, r1.out, r2.out);
                },
            }
        },
    }
}

proof fn lemma_repeat_loop_keeps<K: Fn(FloatQuery) -> FloatAnswer>(
    k: K,
    f: nat,
    body: Seq<TokenView>,
    n: int,
    vars: Bindings,
    out: Seq<char>,
)
    ensures
        out.is_prefix_of(repeat_loop(k, f, body, n, vars, out).out),
        match repeat_loop(k, f, body, n, vars, out).result {
            Ok(v) => vars.dom().subset_of(v.dom()),
            Err(_) => true,
        },
    decreases f, 2int, n,
{
    lemma_repeat_loop(k, f, body, n, vars, out);
    lemma_prefix_refl(out);
    if n > 0 {
        let r = eval_run(k, f, body, vars, out);
        lemma_eval_run_keeps(k, f, body, vars, out);
        match r.result {
            Err(_) => {},
            Ok((_, v)) => {
                lemma_repeat_loop_keeps(k, f, body, n - 1, v, r.out);
                lemma_prefix_trans(out, r.out, repeat_loop(k, f, body, n - 1, v, r.out).out);
            },
        }
    }
}

proof fn lemma_repeat_step_keeps<K: Fn(FloatQuery) -> FloatAnswer>(
    k: K,
    f: nat,
    tokens: Seq<TokenView>,
    i: int,
    c: Seq<TokenView>,
    last: TokenView,
    vars: Bindings,
    out: Seq<char>,
)
    ensures
        step_keeps(vars, out, repeat_step(k, f, tokens, i, c, last, vars, out)),
    decreases f, 4int, 0int,
{
    lemma_repeat_step(k, f, tokens, i, c, last, vars, out);
    let cv = cwv(k, f, c, vars, out);
    lemma_cwv_grows(k, f, c, vars, out);
    match cv.result {
        Err(_) => {},
        Ok(count) => {
            if i + 1 < tokens.len() && tokens[i + 1] is Block {
                match count {
                    TokenView::Integer(n) => {
                        let body = block_body(tokens[i + 1]);
                        lemma_repeat_loop_keeps(k, f, body, n as int, vars, cv.out);
                        lemma_prefix_trans(out, cv.out, repeat_loop(k, f, body, n as int, vars, cv.out).out);
                    },
                    _ => {},
                }
            }
        },
    }
}

proof fn lemma_block_fns_keeps<K: Fn(FloatQuery) -> FloatAnswer>(
    k: K,
    f: nat,
    b: Seq<TokenView>,
    j: int,
    acc: Seq<TokenView>,
    vars: Bindings,
    out: Seq<char>,
)
    ensures
        out.is_prefix_of(block_fns(k, f, b, j, acc, vars, out).out),
        match block_fns(k, f, b, j, acc, vars, out).result {
            Ok(p) => vars.dom().subset_of(p.1.dom()),
            Err(_) => true,
        },
    decreases f, 2int, b.len() - j,
{
    lemma_block_fns(k, f, b, j, acc, vars, out);
    lemma_prefix_refl(out);
    if 0 <= j < b.len() {
        if b[j] is Function {
            let r = eval_run(k, f, seq![b[j]], vars, out);
            lemma_eval_run_keeps(k, f, seq![b[j]], vars, out);
            match r.result {
                Err(_) => {},
                Ok((res, v)) => {
                    lemma_block_fns_keeps(k, f, b, j + 1, acc.push(res), v, r.out);
                    lemma_prefix_trans(out, r.out, block_fns(k, f, b, j + 1, acc.push(res), v, r.out).out);
                },
            }
        } else {
            lemma_block_fns_keeps(k, f, b, j + 1, acc.push(b[j]), vars, out);
        }
    }
}

proof fn lemma_block_value_keeps<K: Fn(FloatQuery) -> FloatAnswer>(
    k: K,
    f: nat,
    p: Seq<TokenView>,
    vars: Bindings,
    out: Seq<char>,
)
    ensures
        out.is_prefix_of(block_value(k, f, p, vars, out).out),
        keeps(vars, block_value(k, f, p, vars, out)),
    decreases f, 5int, 0int,
{
    lemma_block_value(k, f, p, vars, out);
    lemma_prefix_refl(out);
    if p.len() > 0 {
        if p[0] is String {
            lemma_eval_run_keeps(k, f, p, vars, out);
        } else {
            let s = subst_tokens(p, vars);
            let c1 = calc_fi_run(k, f, s, vars, out);
            lemma_calc_fi_grows(k, f, s, vars, out);
            let c2 = cwv(k, f, s, vars, c1.out);
            lemma_cwv_grows(k, f, s, vars, c1.out);
            lemma_prefix_trans(out, c1.out, c2.out);
            let c3 = cwv(k, f, s, Map::empty(), c2.out);
            lemma_cwv_grows(k, f, s, Map::empty(), c2.out);
            lemma_prefix_trans(out, c2.out, c3.out);
            lemma_eval_run_keeps(k, f, s, vars, c3.out);
            lemma_prefix_trans(out, c3.out, eval_run(k, f, s, vars, c3.out).out);
        }
    }
}

proof fn lemma_block_step_keeps<K: Fn(FloatQuery) -> FloatAnswer>(
    k: K,
    f: nat,
    b: Seq<TokenView>,
    vars: Bindings,
    out: Seq<char>,
)
    ensures
        step_keeps(vars, out, block_step(k, f, b, vars, out)),
    decreases f, 6int, 0int,
{
    lemma_block_step(k, f, b, vars, out);
    let p = block_fns(k, f, b, 0, Seq::empty(), vars, out);
    lemma_block_fns_keeps(k, f, b, 0, Seq::empty(), vars, out);
    match p.result {
        Err(_) => {},
        Ok((processed, vars1)) => {
            lemma_block_value_keeps(k, f, processed, vars1, p.out);
            lemma_prefix_trans(out, p.out, block_value(k, f, processed, vars1, p.out).out);
        },
    }
}

proof fn lemma_run_method_grows<K: Fn(FloatQuery) -> FloatAnswer>(
    k: K,
    f: nat,
    c: ClassView,
    name: Seq<char>,
    args: Bindings,
    out: Seq<char>,
)
    ensures
        out.is_prefix_of(run_method_run(k, f, c, name, args, out).out),
    decreases f, 1int, 0int,
{
    lemma_run_method_run(k, f, c, name, args, out);
    lemma_prefix_refl(out);
    if c.methods.contains_key(name) {
        lemma_eval_run_keeps(k, f, seq![c.methods[name]], c.fields.union_prefer_right(args), out);
    }
}

proof fn lemma_cwv_pass1_grows<K: Fn(FloatQuery) -> FloatAnswer>(
    k: K,
    f: nat,
    t: Seq<TokenView>,
    i: int,
    acc: Seq<TokenView>,
    current: TokenView,
    out: Seq<char>,
)
    ensures
        out.is_prefix_of(cwv_pass1(k, f, t, i, acc, current, out).out),
    decreases f, 2int, t.len() - i,
{
    lemma_cwv_pass1(k, f, t, i, acc, current, out);
    lemma_prefix_refl(out);
    if 0 <= i < t.len() {
        match t[i] {
            TokenView::Symbol(op) => if i + 1 < t.len() {
                let next = t[i + 1];
                if op == Symbol::Multiply || op == Symbol::Divide || op == Symbol::Mod {
                    let args = Map::empty().insert("rhs"@, next);
                    let r = run_method_run(k, f, class_of(k, current), method_of(op), args, out);
                    lemma_run_method_grows(k, f, class_of(k, current), method_of(op), args, out);
                    match r.result {
                        Err(_) => {},
                        Ok(c2) => {
                            lemma_cwv_pass1_grows(k, f, t, i + 2, acc, c2, r.out);
                            lemma_prefix_trans(out, r.out, cwv_pass1(k, f, t, i + 2, acc, c2, r.out).out);
                        },
                    }
                } else if op == Symbol::Plus || op == Symbol::Minus || op == Symbol::Is || op == Symbol::Greater
                    || op == Symbol::Less {
                    lemma_cwv_pass1_grows(k, f, t, i + 2, acc.push(current).push(TokenView::Symbol(op)), next, out);
                } else {
                    lemma_cwv_pass1_grows(k, f, t, i + 2, acc, current, out);
                }
            },
            _ => lemma_cwv_pass1_grows(k, f, t, i + 1, acc, current, out),
        }
    }
}

proof fn lemma_cwv_pass2_grows<K: Fn(FloatQuery) -> FloatAnswer>(
    k: K,
    f: nat,
    rt: Seq<TokenView>,
    i: int,
    acc: Seq<TokenView>,
    cur: ClassView,
    out: Seq<char>,
)
    ensures
        out.is_prefix_of(cwv_pass2(k, f, rt, i, acc, cur, out).out),
    decreases f, 2int, rt.len() - i,
{
    lemma_cwv_pass2(k, f, rt, i, acc, cur, out);
    lemma_prefix_refl(out);
    if 0 <= i < rt.len() {
        match rt[i] {
            TokenView::Symbol(op) => if i + 1 < rt.len() {
                let next = rt[i + 1];
                if op == Symbol::Plus || op == Symbol::Minus {
                    let args = Map::empty().insert("rhs"@, next);
                    let r = run_method_run(k, f, cur, method_of(op), args, out);
                    lemma_run_method_grows(k, f, cur, method_of(op), args, out);
                    match r.result {
                        Err(_) => {},
                        Ok(res) => {
                            lemma_cwv_pass2_grows(k, f, rt, i + 2, acc, class_of(k, res), r.out);
                            lemma_prefix_trans(out, r.out, cwv_pass2(k, f, rt, i + 2, acc, class_of(k, res), r.out).out);
                        },
                    }
                } else if op == Symbol::Is || op == Symbol::Greater || op == Symbol::Less {
                    let r = run_method_run(k, f, cur, "!!format!!"@, Map::empty(), out);
                    lemma_run_method_grows(k, f, cur, "!!format!!"@, Map::empty(), out);
                    match r.result {
                        Err(_) => {},
                        Ok(fm) => {
                            let acc2 = acc.push(fm).push(TokenView::Symbol(op));
                            lemma_cwv_pass2_grows(k, f, rt, i + 2, acc2, class_of(k, next), r.out);
                            lemma_prefix_trans(out, r.out, cwv_pass2(k, f, rt, i + 2, acc2, class_of(k, next), r.out).out);
                        },
                    }
                } else {
                    lemma_cwv_pass2_grows(k, f, rt, i + 2, acc, cur, out);
                }
            },
            _ => lemma_cwv_pass2_grows(k, f, rt, i + 1, acc, cur, out),
        }
    }
}

proof fn lemma_cwv_grows<K: Fn(FloatQuery) -> FloatAnswer>(
    k: K,
    f: nat,
    tokens: Seq<TokenView>,
    vars: Bindings,
    out: Seq<char>,
)
    ensures
        out.is_prefix_of(cwv(k, f, tokens, vars, out).out),
    decreases f, 3int, 0int,
{
    lemma_cwv(k, f, tokens, vars, out);
    lemma_prefix_refl(out);
    if tokens.len() > 0 {
        let t = resolved(tokens, vars);
        let p1 = cwv_pass1(k, f, t, 1, Seq::empty(), t[0], out);
        lemma_cwv_pass1_grows(k, f, t, 1, Seq::empty(), t[0], out);
        match p1.result {
            Err(_) => {},
            Ok(rt) => {
                let p2 = cwv_pass2(k, f, rt, 1, Seq::empty(), class_of(k, rt[0]), p1.out);
                lemma_cwv_pass2_grows(k, f, rt, 1, Seq::empty(), class_of(k, rt[0]), p1.out);
                lemma_prefix_trans(out, p1.out, p2.out);
                match p2.result {
                    Err(_) => {},
                    Ok((pending, cur)) => {
                        lemma_run_method_grows(k, f, cur, "!!format!!"@, Map::empty(), p2.out);
                        lemma_prefix_trans(out, p2.out, run_method_run(k, f, cur, "!!format!!"@, Map::empty(), p2.out).out);
                    },
                }
            },
        }
    }
}

proof fn lemma_calc_fi_grows<K: Fn(FloatQuery) -> FloatAnswer>(
    k: K,
    f: nat,
    tokens: Seq<TokenView>,
    vars: Bindings,
    out: Seq<char>,
)
    ensures
        out.is_prefix_of(calc_fi_run(k, f, tokens, vars, out).out),
    decreases f, 4int, 0int,
{
    lemma_calc_fi_run(k, f, tokens, vars, out);
    lemma_prefix_refl(out);
    let t = resolved(tokens, vars);
    if all_numeric(t) && has_comparison(t) {
        lemma_cwv_grows(k, f, tokens, vars, out);
    }
}

/// Evaluation only appends to the output: what was printed before a run is
/// still there, in front, after it, whatever the run gives.
pub proof fn law_eval_appends_output<K: Fn(FloatQuery) -> FloatAnswer>(
    k: K,
    fuel: nat,
    tokens: Seq<TokenView>,
    vars: Bindings,
    out: Seq<char>,
)
    ensures
        out.is_prefix_of(eval_run(k, fuel, tokens, vars, out).out),
{
    lemma_eval_run_keeps(k, fuel, tokens, vars, out);
}

/// Evaluation never unbinds a variable: each variable bound before a run
/// that finishes is still bound after it.
pub proof fn law_eval_keeps_variables<K: Fn(FloatQuery) -> FloatAnswer>(
    k: K,
    fuel: nat,
    tokens: Seq<TokenView>,
    vars: Bindings,
    out: Seq<char>,
)
    ensures
        match eval_run(k, fuel, tokens, vars, out).result {
            Ok(p) => vars.dom().subset_of(p.1.dom()),
            Err(_) => true,
        },
{
    lemma_eval_run_keeps(k, fuel, tokens, vars, out);
}

/// A calculation only appends to the output, whatever it gives.
pub proof fn law_calc_appends_output<K: Fn(FloatQuery) -> FloatAnswer>(
    k: K,
    fuel: nat,
    tokens: Seq<TokenView>,
    vars: Bindings,
    out: Seq<char>,
)
    ensures
        out.is_prefix_of(cwv(k, fuel, tokens, vars, out).out),
{
    lemma_cwv_grows(k, fuel, tokens, vars, out);
}

proof fn lemma_subst_token_empty(t: TokenView)
    ensures
        subst_token(t, Map::empty()) == t,
    decreases t,
{
    match t {
        TokenView::Block(inner) => lemma_subst_tokens_empty(inner),
        TokenView::If(c) => lemma_subst_tokens_empty(c),
        TokenView::Repeat(c) => lemma_subst_tokens_empty(c),
        TokenView::Function(_, args) => lemma_subst_lists_empty(args),
        _ => {},
    }
}

proof fn lemma_subst_tokens_empty(s: Seq<TokenView>)
    ensures
        subst_tokens(s, Map::empty()) == s,
    decreases s,
{
    assert forall|i: int| 0 <= i < s.len() implies subst_tokens(s, Map::empty())[i] == s[i] by {
        lemma_subst_token_empty(s[i]);
    }
    assert(subst_tokens(s, Map::empty()) =~= s);
}

proof fn lemma_subst_lists_empty(s: Seq<Seq<TokenView>>)
    ensures
        subst_lists(s, Map::empty()) == s,
    decreases s,
{
    assert forall|i: int| 0 <= i < s.len() implies subst_lists(s, Map::empty())[i] == s[i] by {
        lemma_subst_tokens_empty(s[i]);
    }
    assert(subst_lists(s, Map::empty()) =~= s);
}

/// Putting no variables into a list of tokens leaves it as it is.
pub proof fn law_substitute_nothing(s: Seq<TokenView>)
    ensures
        subst_tokens(s, Map::empty()) == s,
{
    lemma_subst_tokens_empty(s);
}

proof fn lemma_nat_text_digits(m: nat)
    ensures
        nat_text(m).len() >= 1,
        all_digits(nat_text(m)),
        digits_value(nat_text(m)) == m,
    decreases m,
{
    let s = nat_text(m);
    if m < 10 {
        assert(s.drop_last() =~= Seq::<char>::empty());
        assert(digits_value(Seq::<char>::empty()) == 0);
        assert(s.last() == digit_char(m as int));
        assert(digit_value(digit_char(m as int)) == m);
        assert(digits_value(s) == digits_value(s.drop_last()) * 10 + digit_value(s.last()));
    } else {
        lemma_nat_text_digits(m / 10);
        let p = nat_text(m / 10);
        let c = digit_char((m % 10) as int);
        assert(s == p.push(c));
        assert(s.drop_last() =~= p);
        assert(s.last() == c);
        assert(digit_value(c) == m % 10);
        assert(digits_value(s) == digits_value(p) * 10 + digit_value(c));
        assert(m == (m / 10) * 10 + m % 10) by (nonlinear_arith);
        assert forall|i: int| 0 <= i < s.len() implies is_digit(#[trigger] s[i]) by {
            if i < p.len() {
                assert(s[i] == p[i]);
            }
        }
    }
}

/// Parsing the decimal text of an integer gives the integer back.
pub proof fn law_integer_text_parses_back(n: isize)
    ensures
        parse_isize_spec(int_text(n as int)) == Some(n),
{
    let s = int_text(n as int);
    if n < 0 {
        let m = (-(n as int)) as nat;
        lemma_nat_text_digits(m);
        let d = nat_text(m);
        assert(s == seq!['-'] + d);
        assert(sign_len(s) == 1);
        assert(s.subrange(1, s.len() as int) =~= d);
    } else {
        lemma_nat_text_digits(n as nat);
        let d = nat_text(n as nat);
        assert(is_digit(d[0]));
        assert(sign_len(s) == 0);
        assert(s.subrange(0, s.len() as int) =~= d);
    }
}

/// `string * n` gives the string written `n` times: `n` times as long, the
/// `i`-th character being the `i % len`-th of the string. (Where the result
/// would be longer than `isize::MAX`, it is a fault instead.)
pub proof fn law_string_repeat(s: Seq<char>, n: isize, vars: Bindings)
    requires
        n >= 0,
        s.len() * n <= isize::MAX,
    ensures
        ({
            let r = str_calc(seq![TokenView::String(s), TokenView::Symbol(Symbol::Multiply), TokenView::Integer(n)], vars);
            &&& r matches Ok(TokenView::String(t))
            &&& t.len() == s.len() * n
            &&& forall|i: int| 0 <= i < t.len() ==> t[i] == s[i % (s.len() as int)]
        }),
{
    let toks = seq![TokenView::String(s), TokenView::Symbol(Symbol::Multiply), TokenView::Integer(n)];
    assert(resolved(toks, vars) =~= toks);
    lemma_repeat_chars(s, n as nat);
}

proof fn lemma_repeat_chars(s: Seq<char>, n: nat)
    ensures
        repeat_text(s, n).len() == s.len() * n,
        forall|i: int| 0 <= i < repeat_text(s, n).len() ==> repeat_text(s, n)[i] == s[i % (s.len() as int)],
    decreases n,
{
    lemma_repeat_len(s, n);
    if n > 0 {
        lemma_repeat_chars(s, (n - 1) as nat);
        let p = repeat_text(s, (n - 1) as nat);
        let t = repeat_text(s, n);
        assert(t == p + s);
        assert forall|i: int| 0 <= i < t.len() implies t[i] == s[i % (s.len() as int)] by {
            if i < p.len() {
                assert(t[i] == p[i]);
            } else {
                let l = s.len() as int;
                let q = (n - 1) as int;
                assert(p.len() == l * q);
                assert(t[i] == s[i - l * q]);
                assert(i == q * l + (i - l * q)) by (nonlinear_arith);
                vstd::arithmetic::div_mod::lemma_fundamental_div_mod_converse(i, l, q, i - l * q);
            }
        }
    }
}

/// `string + string` gives the two strings one after the other.
pub proof fn law_string_concat(s1: Seq<char>, s2: Seq<char>, vars: Bindings)
    ensures
        str_calc(seq![TokenView::String(s1), TokenView::Symbol(Symbol::Plus), TokenView::String(s2)], vars)
            == Ok::<TokenView, EvalErrorView>(TokenView::String(s1 + s2)),
{
    let toks = seq![TokenView::String(s1), TokenView::Symbol(Symbol::Plus), TokenView::String(s2)];
    assert(resolved(toks, vars) =~= toks);
}

/// Binding a name and then looking it up gives the value bound; every other
/// name keeps what it was bound to.
pub proof fn law_bind_then_lookup(vars: Bindings, name: Seq<char>, value: TokenView, other: Seq<char>)
    ensures
        vars.insert(name, value).contains_key(name),
        vars.insert(name, value)[name] == value,
        other != name ==> (vars.insert(name, value).contains_key(other) == vars.contains_key(other)
            && vars.insert(name, value).get(other) == vars.get(other)),
{
}

/// The decimal text of an integer starts with `-` or a digit.
proof fn lemma_int_text_start(n: int)
    ensures
        int_text(n).len() >= 1,
        int_text(n)[0] == '-' || is_digit(int_text(n)[0]),
{
    if n < 0 {
        lemma_nat_text_digits((-n) as nat);
    } else {
        lemma_nat_text_digits(n as nat);
    }
}

/// A lone integer calculates to itself: its class formats it as its
/// decimal text, which parses back to the integer. The format method is one
/// evaluation deep, so with no fuel at all the run is `Exhausted`.
pub proof fn law_integer_calculates_to_itself<K: Fn(FloatQuery) -> FloatAnswer>(
    k: K,
    fuel: nat,
    n: isize,
    vars: Bindings,
    out: Seq<char>,
)
    ensures
        cwv(k, fuel, seq![TokenView::Integer(n)], vars, out) == if fuel == 0 {
            crate::semantics::failed(EvalErrorView::Exhausted, out)
        } else {
            crate::semantics::done(TokenView::Integer(n), out)
        },
{
    let toks = seq![TokenView::Integer(n)];
    lemma_cwv(k, fuel, toks, vars, out);
    let t = resolved(toks, vars);
    assert(t =~= toks);
    lemma_cwv_pass1(k, fuel, t, 1, Seq::empty(), t[0], out);
    let rt = Seq::<TokenView>::empty().push(t[0]);
    assert(rt =~= toks);
    lemma_cwv_pass2(k, fuel, rt, 1, Seq::empty(), class_of(k, rt[0]), out);
    let c = class_of(k, TokenView::Integer(n));
    let text = int_text(n as int);
    reveal_strlit("!!format!!");
    reveal_strlit("!!add!!");
    reveal_strlit("!!sub!!");
    reveal_strlit("!!mul!!");
    reveal_strlit("!!div!!");
    assert("!!format!!"@[2] != "!!add!!"@[2]);
    assert("!!format!!"@[2] != "!!sub!!"@[2]);
    assert("!!format!!"@[2] != "!!mul!!"@[2]);
    assert("!!format!!"@[2] != "!!div!!"@[2]);
    assert(c.methods.contains_key("!!format!!"@));
    assert(c.methods["!!format!!"@] == TokenView::String(text));
    lemma_run_method_run(k, fuel, c, "!!format!!"@, Map::empty(), out);
    let body = seq![TokenView::String(text)];
    let vars2 = c.fields.union_prefer_right(Map::<Seq<char>, TokenView>::empty());
    lemma_eval_run(k, fuel, body, vars2, out);
    if fuel > 0 {
        let f = (fuel - 1) as nat;
        lemma_eval_from(k, f, body, 0, TokenView::Integer(0), vars2, out);
        assert(resolve_one(body[0], vars2) == TokenView::String(text));
        lemma_eval_step(k, f, body, 0, TokenView::String(text), TokenView::Integer(0), vars2, out);
        reveal_strlit("tru");
        reveal_strlit("falz");
        lemma_int_text_start(n as int);
        assert(text != "tru"@) by {
            if text == "tru"@ {
                assert(text[0] == 't');
            }
        }
        assert(text != "falz"@) by {
            if text == "falz"@ {
                assert(text[0] == 'f');
            }
        }
        law_integer_text_parses_back(n);
    }
}

/// A lone string calculates to itself when it reads as neither `tru`,
/// `falz`, an integer nor a float (those it turns into the value they name):
/// its class formats it as the string itself. The format method is one
/// evaluation deep, so with no fuel at all the run is `Exhausted`.
pub proof fn law_string_calculates_to_itself<K: Fn(FloatQuery) -> FloatAnswer>(
    k: K,
    fuel: nat,
    s: Seq<char>,
    vars: Bindings,
    out: Seq<char>,
)
    requires
        s != "tru"@,
        s != "falz"@,
        parse_isize_spec(s) is None,
        parse_float(k, s) is None,
    ensures
        cwv(k, fuel, seq![TokenView::String(s)], vars, out) == if fuel == 0 {
            crate::semantics::failed(EvalErrorView::Exhausted, out)
        } else {
            crate::semantics::done(TokenView::String(s), out)
        },
{
    let toks = seq![TokenView::String(s)];
    lemma_cwv(k, fuel, toks, vars, out);
    let t = resolved(toks, vars);
    assert(t =~= toks);
    lemma_cwv_pass1(k, fuel, t, 1, Seq::empty(), t[0], out);
    let rt = Seq::<TokenView>::empty().push(t[0]);
    assert(rt =~= toks);
    lemma_cwv_pass2(k, fuel, rt, 1, Seq::empty(), class_of(k, rt[0]), out);
    let c = class_of(k, TokenView::String(s));
    reveal_strlit("!!format!!");
    reveal_strlit("!!add!!");
    assert("!!format!!"@[2] != "!!add!!"@[2]);
    assert(c.methods.contains_key("!!format!!"@));
    assert(c.methods["!!format!!"@] == TokenView::String(s));
    lemma_run_method_run(k, fuel, c, "!!format!!"@, Map::empty(), out);
    let body = seq![TokenView::String(s)];
    let vars2 = c.fields.union_prefer_right(Map::<Seq<char>, TokenView>::empty());
    lemma_eval_run(k, fuel, body, vars2, out);
    if fuel > 0 {
        let f = (fuel - 1) as nat;
        lemma_eval_from(k, f, body, 0, TokenView::Integer(0), vars2, out);
        assert(resolve_one(body[0], vars2) == TokenView::String(s));
        lemma_eval_step(k, f, body, 0, TokenView::String(s), TokenView::Integer(0), vars2, out);
    }
}

/// Whether a token is a number, a string or a boolean: a value that
/// evaluates to itself.
pub open spec fn is_scalar(t: TokenView) -> bool {
    t is Integer || t is Float || t is String || t is Boolean
}

/// Calling a function that is not defined (a name other than `prnt` that
/// is not bound to a block) stops with the error `Function <name> not
/// found`, having printed nothing.
pub proof fn law_unknown_function_reported<K: Fn(FloatQuery) -> FloatAnswer>(
    k: K,
    fuel: nat,
    name: Seq<char>,
    args: Seq<Seq<TokenView>>,
    vars: Bindings,
    out: Seq<char>,
)
    requires
        fuel >= 1,
        name != "prnt"@,
        !(vars.contains_key(name) && vars[name] is Block),
    ensures
        eval_run(k, fuel, seq![TokenView::Function(name, args)], vars, out)
            == crate::semantics::failed::<(TokenView, Bindings)>(
            EvalErrorView::Reported(crate::semantics::not_found_message(name)),
            out,
        ),
{
    let toks = seq![TokenView::Function(name, args)];
    let f = (fuel - 1) as nat;
    lemma_eval_run(k, fuel, toks, vars, out);
    lemma_eval_from(k, f, toks, 0, TokenView::Integer(0), vars, out);
    assert(resolve_one(toks[0], vars) == toks[0]);
    lemma_eval_step(k, f, toks, 0, toks[0], TokenView::Integer(0), vars, out);
    lemma_call_step(k, f, toks, 0, name, args, vars, out);
}

/// `name = value`, for a name not bound yet, never finishes: the name is
/// taken as the `{}` text of the token before `=`, and formatting a token
/// that way does not return. Nothing is printed and no variable changes
/// before that.
pub proof fn law_assignment_never_ends<K: Fn(FloatQuery) -> FloatAnswer>(
    k: K,
    fuel: nat,
    name: Seq<char>,
    value: TokenView,
    vars: Bindings,
    out: Seq<char>,
)
    requires
        fuel >= 1,
        !vars.contains_key(name),
    ensures
        eval_run(k, fuel, seq![TokenView::Identifier(name), TokenView::Symbol(Symbol::Equal), value], vars, out)
            == crate::semantics::failed::<(TokenView, Bindings)>(EvalErrorView::Stuck, out),
{
    let toks = seq![TokenView::Identifier(name), TokenView::Symbol(Symbol::Equal), value];
    let f = (fuel - 1) as nat;
    lemma_eval_run(k, fuel, toks, vars, out);
    lemma_eval_from(k, f, toks, 0, TokenView::Integer(0), vars, out);
    assert(resolve_one(toks[0], vars) == toks[0]);
    lemma_eval_step(k, f, toks, 0, toks[0], TokenView::Integer(0), vars, out);
    lemma_eval_from(k, f, toks, 1, TokenView::Integer(0), vars, out);
    assert(resolve_one(toks[1], vars) == toks[1]);
    lemma_eval_step(k, f, toks, 1, toks[1], TokenView::Integer(0), vars, out);
    lemma_assign_step(k, f, toks, 1, TokenView::Integer(0), vars, out);
}

/// A name bound to a number, string or boolean evaluates to that value,
/// and nothing changes.
pub proof fn law_variable_reads_back<K: Fn(FloatQuery) -> FloatAnswer>(
    k: K,
    fuel: nat,
    name: Seq<char>,
    vars: Bindings,
    out: Seq<char>,
)
    requires
        fuel >= 1,
        vars.contains_key(name),
        is_scalar(vars[name]),
    ensures
        eval_run(k, fuel, seq![TokenView::Identifier(name)], vars, out) == crate::semantics::done((vars[name], vars), out),
{
    let toks = seq![TokenView::Identifier(name)];
    let f = (fuel - 1) as nat;
    lemma_eval_run(k, fuel, toks, vars, out);
    lemma_eval_from(k, f, toks, 0, TokenView::Integer(0), vars, out);
    assert(resolve_one(toks[0], vars) == vars[name]);
    lemma_eval_step(k, f, toks, 0, vars[name], TokenView::Integer(0), vars, out);
}

/// The runs of a body that `vs` and `outs` record: for each `j` below `m`,
/// running `body` from the variables `vs[j]` with the output `outs[j]`
/// finishes, leaving the variables `vs[j + 1]` and the output `outs[j + 1]`.
pub open spec fn body_runs<K: Fn(FloatQuery) -> FloatAnswer>(
    k: K,
    f: nat,
    body: Seq<TokenView>,
    m: int,
    vs: Seq<Bindings>,
    outs: Seq<Seq<char>>,
) -> bool {
    &&& 0 <= m
    &&& vs.len() == m + 1
    &&& outs.len() == m + 1
    &&& forall|j: int|
        0 <= j < m ==> {
            let r = #[trigger] eval_run(k, f, body, vs[j], outs[j]);
            &&& r.result is Ok
            &&& r.result->Ok_0.1 == vs[j + 1]
            &&& r.out == outs[j + 1]
        }
}

proof fn lemma_repeat_loop_runs<K: Fn(FloatQuery) -> FloatAnswer>(
    k: K,
    f: nat,
    body: Seq<TokenView>,
    m: int,
    vs: Seq<Bindings>,
    outs: Seq<Seq<char>>,
    j: int,
)
    requires
        body_runs(k, f, body, m, vs, outs),
        0 <= j <= m,
    ensures
        repeat_loop(k, f, body, m - j, vs[j], outs[j]) == crate::semantics::done(vs[m], outs[m]),
    decreases m - j,
{
    lemma_repeat_loop(k, f, body, m - j, vs[j], outs[j]);
    if j < m {
        let r = eval_run(k, f, body, vs[j], outs[j]);
        assert(r.result is Ok && r.result->Ok_0.1 == vs[j + 1] && r.out == outs[j + 1]);
        lemma_repeat_loop_runs(k, f, body, m, vs, outs, j + 1);
    }
}

/// `repeat (c) { body }` runs the body as many times as `c` calculates to
/// (none when that is below one), each run starting from the variables the
/// run before it left, and gives `0` with the variables of the last run.
/// Here the count calculates to `n`, with the output `outs[0]`, and `vs`,
/// `outs` record the runs of the body, which all finish.
pub proof fn law_repeat_runs_body<K: Fn(FloatQuery) -> FloatAnswer>(
    k: K,
    fuel: nat,
    c: Seq<TokenView>,
    body: Seq<TokenView>,
    n: isize,
    vars: Bindings,
    out: Seq<char>,
    vs: Seq<Bindings>,
    outs: Seq<Seq<char>>,
)
    requires
        fuel >= 1,
        cwv(k, (fuel - 1) as nat, c, vars, out) == crate::semantics::done(TokenView::Integer(n), outs[0]),
        vs[0] == vars,
        body_runs(k, (fuel - 1) as nat, body, if n < 0 { 0 } else { n as int }, vs, outs),
    ensures
        ({
            let m = if n < 0 { 0 } else { n as int };
            eval_run(k, fuel, seq![TokenView::Repeat(c), TokenView::Block(body)], vars, out)
                == crate::semantics::done((TokenView::Integer(0), vs[m]), outs[m])
        }),
{
    let m = if n < 0 { 0 } else { n as int };
    let toks = seq![TokenView::Repeat(c), TokenView::Block(body)];
    let f = (fuel - 1) as nat;
    lemma_eval_run(k, fuel, toks, vars, out);
    lemma_eval_from(k, f, toks, 0, TokenView::Integer(0), vars, out);
    assert(resolve_one(toks[0], vars) == toks[0]);
    lemma_eval_step(k, f, toks, 0, toks[0], TokenView::Integer(0), vars, out);
    lemma_repeat_step(k, f, toks, 0, c, TokenView::Integer(0), vars, out);
    assert(block_body(toks[1]) == body);
    lemma_repeat_loop_runs(k, f, body, m, vs, outs, 0);
    if n < 0 {
        lemma_repeat_loop(k, f, body, n as int, vars, outs[0]);
    }
}

/// Whether a lone condition value lets an `if` run its block: `true`, or an
/// integer other than zero.
pub open spec fn opens_if(cond: TokenView) -> bool {
    match cond {
        TokenView::Integer(n) => n != 0,
        TokenView::Boolean(b) => b,
        _ => false,
    }
}

/// Whether a lone condition value is `false` or the integer zero.
pub open spec fn closes_if(cond: TokenView) -> bool {
    cond == TokenView::Boolean(false) || cond == TokenView::Integer(0)
}

proof fn lemma_lone_if<K: Fn(FloatQuery) -> FloatAnswer>(
    k: K,
    fuel: nat,
    cond: TokenView,
    body: Seq<TokenView>,
    vars: Bindings,
    out: Seq<char>,
)
    requires
        fuel >= 1,
        cond is Integer || cond is Boolean,
    ensures
        ({
            let toks = seq![TokenView::If(seq![cond]), TokenView::Block(body)];
            let f = (fuel - 1) as nat;
            eval_run(k, fuel, toks, vars, out) == match if_step(k, f, toks, 0, seq![cond], TokenView::Integer(0), vars, out) {
                Step::Next(_, last2, vars2, out2) => crate::semantics::done((last2, vars2), out2),
                Step::Stop(run) => run,
            }
        }),
        if_cond(k, (fuel - 1) as nat, seq![cond], vars, out) == crate::semantics::done((cond, vars), out),
{
    let toks = seq![TokenView::If(seq![cond]), TokenView::Block(body)];
    let f = (fuel - 1) as nat;
    lemma_eval_run(k, fuel, toks, vars, out);
    lemma_eval_from(k, f, toks, 0, TokenView::Integer(0), vars, out);
    assert(resolve_one(toks[0], vars) == toks[0]);
    lemma_eval_step(k, f, toks, 0, toks[0], TokenView::Integer(0), vars, out);
    lemma_if_step(k, f, toks, 0, seq![cond], TokenView::Integer(0), vars, out);
    lemma_if_cond(k, f, seq![cond], vars, out);
    assert(subst_tokens(seq![cond], vars) =~= seq![cond]);
}

/// `if c { body }` with a lone condition `c` that is `true` or any integer
/// other than zero runs the body once, from the variables of the run, and
/// gives `0` with the variables the body left; an error of the body stops
/// the run. With no fuel at all the run is `Exhausted`.
pub proof fn law_if_runs_block_when_true<K: Fn(FloatQuery) -> FloatAnswer>(
    k: K,
    fuel: nat,
    cond: TokenView,
    body: Seq<TokenView>,
    vars: Bindings,
    out: Seq<char>,
)
    requires
        opens_if(cond),
    ensures
        eval_run(k, fuel, seq![TokenView::If(seq![cond]), TokenView::Block(body)], vars, out) == if fuel == 0 {
            crate::semantics::failed(EvalErrorView::Exhausted, out)
        } else {
            let r = eval_run(k, (fuel - 1) as nat, body, vars, out);
            match r.result {
                Ok((_, v)) => crate::semantics::done((TokenView::Integer(0), v), r.out),
                Err(e) => crate::semantics::failed(e, r.out),
            }
        },
{
    let toks = seq![TokenView::If(seq![cond]), TokenView::Block(body)];
    lemma_eval_run(k, fuel, toks, vars, out);
    if fuel > 0 {
        let f = (fuel - 1) as nat;
        lemma_lone_if(k, fuel, cond, body, vars, out);
        lemma_if_step(k, f, toks, 0, seq![cond], TokenView::Integer(0), vars, out);
        lemma_run_block_at(k, f, toks, 1, vars, out);
    }
}

/// `if c { body }` with a lone condition `c` that is `false` or the integer
/// zero skips the body: it gives `0`, the variables are unchanged and
/// nothing is printed. With no fuel at all the run is `Exhausted`.
pub proof fn law_if_skips_block_when_false<K: Fn(FloatQuery) -> FloatAnswer>(
    k: K,
    fuel: nat,
    cond: TokenView,
    body: Seq<TokenView>,
    vars: Bindings,
    out: Seq<char>,
)
    requires
        closes_if(cond),
    ensures
        eval_run(k, fuel, seq![TokenView::If(seq![cond]), TokenView::Block(body)], vars, out) == if fuel == 0 {
            crate::semantics::failed(EvalErrorView::Exhausted, out)
        } else {
            crate::semantics::done((TokenView::Integer(0), vars), out)
        },
{
    let toks = seq![TokenView::If(seq![cond]), TokenView::Block(body)];
    lemma_eval_run(k, fuel, toks, vars, out);
    if fuel > 0 {
        let f = (fuel - 1) as nat;
        lemma_lone_if(k, fuel, cond, body, vars, out);
        lemma_if_step(k, f, toks, 0, seq![cond], TokenView::Integer(0), vars, out);
    }
}

/// The symbol that an operator character stands for: `+`, `-`, `*`, `/`,
/// `%`, `>` and `<`.
pub open spec fn operator_symbol(c: char) -> Option<Symbol> {
    if c == '+' {
        Some(Symbol::Plus)
    } else if c == '-' {
        Some(Symbol::Minus)
    } else if c == '*' {
        Some(Symbol::Multiply)
    } else if c == '/' {
        Some(Symbol::Divide)
    } else if c == '%' {
        Some(Symbol::Mod)
    } else if c == '>' {
        Some(Symbol::Greater)
    } else if c == '<' {
        Some(Symbol::Less)
    } else {
        None
    }
}

/// The symbols of the operator characters of `s`, in order (other
/// characters give none).
pub open spec fn operator_tokens(s: Seq<char>) -> Seq<TokenView>
    decreases s.len(),
{
    if s.len() == 0 {
        Seq::empty()
    } else {
        let rest = operator_tokens(s.subrange(1, s.len() as int));
        match operator_symbol(s[0]) {
            Some(op) => seq![TokenView::Symbol(op)] + rest,
            None => rest,
        }
    }
}

/// Whether every character of `s` is an operator character or a space.
pub open spec fn operators_and_spaces(s: Seq<char>) -> bool {
    forall|i: int| 0 <= i < s.len() ==> (s[i] == ' ' || operator_symbol(#[trigger] s[i]) is Some)
}

proof fn lemma_operator_round<K: Fn(FloatQuery) -> FloatAnswer>(
    k: K,
    path: Seq<char>,
    code: Seq<char>,
    i: int,
    x: int,
    y: int,
    toks: Seq<TokenView>,
)
    requires
        0 <= i < code.len(),
        operator_symbol(code[i]) is Some,
    ensures
        lex_round(k, path, code, i, x, y, toks) == LexOutcome::Next(
            i + 1,
            x,
            y,
            toks.push(TokenView::Symbol(operator_symbol(code[i])->0)),
        ),
{
    let c = code[i];
    assert(!numeric_char(c));
    assert(!alphabetic_char(c));
    assert(lex_round(k, path, code, i, x, y, toks) == stage_quote(k, path, code, c, i, x, y, toks));
    assert(stage_quote(k, path, code, c, i, x, y, toks) == stage_block(k, path, code, c, i, x, y, toks));
    assert(stage_block(k, path, code, c, i, x, y, toks) == stage_array(k, path, code, c, i, x, y, toks));
    assert(stage_array(k, path, code, c, i, x, y, toks) == stage_tf(k, path, code, c, i, x, y, toks));
    assert(stage_tf(k, path, code, c, i, x, y, toks) == stage_e(k, path, code, c, i, x, y, toks));
    assert(stage_e(k, path, code, c, i, x, y, toks) == stage_i(k, path, code, c, i, x, y, toks));
    assert(stage_i(k, path, code, c, i, x, y, toks) == stage_r(k, path, code, c, i, x, y, toks));
    assert(stage_r(k, path, code, c, i, x, y, toks) == stage_ident(k, path, code, c, i, x, y, toks));
    assert(stage_ident(k, path, code, c, i, x, y, toks) == stage_match(k, path, code, c, i, x, y, toks));
}

proof fn lemma_operator_loop<K: Fn(FloatQuery) -> FloatAnswer>(
    k: K,
    path: Seq<char>,
    ops: Seq<char>,
    i: int,
    x: int,
    y: int,
    toks: Seq<TokenView>,
)
    requires
        operators_and_spaces(ops),
        0 <= i <= ops.len(),
    ensures
        lex_loop(k, path, ops.push('\0'), i, x, y, toks) == Ok::<Seq<TokenView>, TokenizeErrorView>(
            toks + operator_tokens(ops.subrange(i, ops.len() as int)),
        ),
    decreases ops.len() - i,
{
    let code = ops.push('\0');
    let rest = ops.subrange(i, ops.len() as int);
    if i == ops.len() {
        assert(code[i] == '\0');
        assert(rest.len() == 0);
        assert(toks + operator_tokens(rest) =~= toks);
    } else {
        assert(code[i] == ops[i]);
        assert(rest.subrange(1, rest.len() as int) =~= ops.subrange(i + 1, ops.len() as int));
        assert(rest[0] == ops[i]);
        let c = ops[i];
        assert(c == ' ' || operator_symbol(c) is Some);
        if c == ' ' {
            assert(lex_round(k, path, code, i, x + 1, y, toks) == LexOutcome::Next(i + 1, x + 1, y, toks));
            lemma_operator_loop(k, path, ops, i + 1, x + 1, y, toks);
            assert(operator_tokens(rest) == operator_tokens(ops.subrange(i + 1, ops.len() as int)));
        } else {
            lemma_operator_round(k, path, code, i, x + 1, y, toks);
            let t2 = toks.push(TokenView::Symbol(operator_symbol(c)->0));
            lemma_operator_loop(k, path, ops, i + 1, x + 1, y, t2);
            assert(operator_tokens(rest) == seq![TokenView::Symbol(operator_symbol(c)->0)] + operator_tokens(
                ops.subrange(i + 1, ops.len() as int),
            ));
            assert(t2 + operator_tokens(ops.subrange(i + 1, ops.len() as int)) =~= toks + operator_tokens(rest));
        }
    }
}

/// Each operator character lexes to its own symbol: a program made only of
/// the characters `+ - * / % > <` and spaces (then the end marker) gives
/// exactly the symbols of its operators, in order, so `-` gives `Minus`,
/// `+` gives `Plus`, `*` gives `Multiply` and `/` gives `Divide`.
pub proof fn law_operators_lex_to_their_symbols<K: Fn(FloatQuery) -> FloatAnswer>(
    k: K,
    path: Seq<char>,
    ops: Seq<char>,
)
    requires
        operators_and_spaces(ops),
    ensures
        tokenize_spec(k, path, ops.push('\0')) == Ok::<Seq<TokenView>, TokenizeErrorView>(operator_tokens(ops)),
{
    lemma_operator_loop(k, path, ops, 0, 1, 1, Seq::empty());
    assert(ops.subrange(0, ops.len() as int) =~= ops);
    assert(Seq::<TokenView>::empty() + operator_tokens(ops) =~= operator_tokens(ops));
}

proof fn lemma_integer_formats<K: Fn(FloatQuery) -> FloatAnswer>(k: K, fuel: nat, n: isize, out: Seq<char>)
    requires
        fuel >= 1,
    ensures
        run_method_run(k, fuel, class_of(k, TokenView::Integer(n)), "!!format!!"@, Map::empty(), out)
            == crate::semantics::done(TokenView::String(int_text(n as int)), out),
{
    let c = class_of(k, TokenView::Integer(n));
    let text = int_text(n as int);
    reveal_strlit("!!format!!");
    reveal_strlit("!!add!!");
    reveal_strlit("!!sub!!");
    reveal_strlit("!!mul!!");
    reveal_strlit("!!div!!");
    assert("!!format!!"@[2] != "!!add!!"@[2]);
    assert("!!format!!"@[2] != "!!sub!!"@[2]);
    assert("!!format!!"@[2] != "!!mul!!"@[2]);
    assert("!!format!!"@[2] != "!!div!!"@[2]);
    assert(c.methods.contains_key("!!format!!"@));
    assert(c.methods["!!format!!"@] == TokenView::String(text));
    lemma_run_method_run(k, fuel, c, "!!format!!"@, Map::empty(), out);
    let body = seq![TokenView::String(text)];
    let vars2 = c.fields.union_prefer_right(Map::<Seq<char>, TokenView>::empty());
    let f = (fuel - 1) as nat;
    lemma_eval_run(k, fuel, body, vars2, out);
    lemma_eval_from(k, f, body, 0, TokenView::Integer(0), vars2, out);
    assert(resolve_one(body[0], vars2) == TokenView::String(text));
    lemma_eval_step(k, f, body, 0, TokenView::String(text), TokenView::Integer(0), vars2, out);
}

proof fn lemma_integer_comparison<K: Fn(FloatQuery) -> FloatAnswer>(
    k: K,
    fuel: nat,
    a: isize,
    op: Symbol,
    b: isize,
    vars: Bindings,
    out: Seq<char>,
)
    requires
        fuel >= 1,
        op == Symbol::Greater || op == Symbol::Less,
    ensures
        cwv(k, fuel, seq![TokenView::Integer(a), TokenView::Symbol(op), TokenView::Integer(b)], vars, out) == (Run {
            result: crate::semantics::cwv_finish(
                k,
                seq![TokenView::String(int_text(a as int)), TokenView::Symbol(op)],
                TokenView::String(int_text(b as int)),
            ),
            out,
        }),
{
    let toks = seq![TokenView::Integer(a), TokenView::Symbol(op), TokenView::Integer(b)];
    lemma_cwv(k, fuel, toks, vars, out);
    let t = resolved(toks, vars);
    assert(t =~= toks);
    lemma_cwv_pass1(k, fuel, t, 1, Seq::empty(), t[0], out);
    let acc1 = Seq::<TokenView>::empty().push(t[0]).push(TokenView::Symbol(op));
    lemma_cwv_pass1(k, fuel, t, 3, acc1, t[2], out);
    let rt = acc1.push(t[2]);
    assert(rt =~= toks);
    lemma_cwv_pass2(k, fuel, rt, 1, Seq::empty(), class_of(k, rt[0]), out);
    lemma_integer_formats(k, fuel, a, out);
    let acc2 = Seq::<TokenView>::empty().push(TokenView::String(int_text(a as int))).push(TokenView::Symbol(op));
    lemma_cwv_pass2(k, fuel, rt, 3, acc2, class_of(k, rt[2]), out);
    lemma_integer_formats(k, fuel, b, out);
    assert(acc2 =~= seq![TokenView::String(int_text(a as int)), TokenView::Symbol(op)]);
}

/// `>` and `<` between two integers are strict comparisons: both are
/// formatted and read back as floats by the float kernel, and `a > b` is
/// `true` exactly when the kernel orders `a` after `b` (`Greater`), `a < b`
/// exactly when it orders `a` before `b` (`Less`); so two operands that the
/// kernel finds equal give `false` both ways. Where a text does not read as
/// a float, the comparison is reported. Nothing is printed.
pub proof fn law_integer_comparisons_are_strict<K: Fn(FloatQuery) -> FloatAnswer>(
    k: K,
    fuel: nat,
    a: isize,
    b: isize,
    vars: Bindings,
    out: Seq<char>,
)
    requires
        fuel >= 1,
    ensures
        ({
            let gt = cwv(k, fuel, seq![TokenView::Integer(a), TokenView::Symbol(Symbol::Greater), TokenView::Integer(b)], vars, out);
            let lt = cwv(k, fuel, seq![TokenView::Integer(a), TokenView::Symbol(Symbol::Less), TokenView::Integer(b)], vars, out);
            &&& gt.out == out
            &&& lt.out == out
            &&& match (parse_float(k, int_text(a as int)), parse_float(k, int_text(b as int))) {
                (Some(x), Some(y)) => {
                    &&& gt.result == Ok::<TokenView, EvalErrorView>(TokenView::Boolean(float_order(k, x, y) == FloatOrder::Greater))
                    &&& lt.result == Ok::<TokenView, EvalErrorView>(TokenView::Boolean(float_order(k, x, y) == FloatOrder::Less))
                    &&& float_order(k, x, y) == FloatOrder::Equal ==> gt.result == Ok::<TokenView, EvalErrorView>(TokenView::Boolean(false))
                        && lt.result == Ok::<TokenView, EvalErrorView>(TokenView::Boolean(false))
                },
                _ => {
                    &&& gt.result == Err::<TokenView, EvalErrorView>(EvalErrorView::Reported(greater_message()))
                    &&& lt.result == Err::<TokenView, EvalErrorView>(EvalErrorView::Reported(less_message()))
                },
            }
        }),
{
    lemma_integer_comparison(k, fuel, a, Symbol::Greater, b, vars, out);
    lemma_integer_comparison(k, fuel, a, Symbol::Less, b, vars, out);
}

/// `calc_fi` keeps floats: on numbers and operators without a comparison,
/// where it gives a number, that number is a float exactly when some token
/// (after the variables are put in) is a float, wherever that token stands,
/// and an integer otherwise. Nothing is printed.
pub proof fn law_calc_fi_float_when_any_float<K: Fn(FloatQuery) -> FloatAnswer>(
    k: K,
    fuel: nat,
    tokens: Seq<TokenView>,
    vars: Bindings,
    out: Seq<char>,
)
    requires
        forall|i: int|
            0 <= i < resolved(tokens, vars).len() ==> #[trigger] resolved(tokens, vars)[i] != TokenView::Symbol(
                Symbol::Is,
            ) && resolved(tokens, vars)[i] != TokenView::Symbol(Symbol::Greater) && resolved(tokens, vars)[i]
                != TokenView::Symbol(Symbol::Less),
    ensures
        ({
            let t = resolved(tokens, vars);
            let r = calc_fi_run(k, fuel, tokens, vars, out);
            &&& r.out == out
            &&& match r.result {
                Ok(v) => v != TokenView::Nothing ==> (v is Float <==> exists|i: int| 0 <= i < t.len() && t[i] is Float)
                    && (v is Float || v is Integer),
                Err(_) => true,
            }
        }),
{
    lemma_calc_fi_run(k, fuel, tokens, vars, out);
    let t = resolved(tokens, vars);
    if has_comparison(t) {
        let i = choose|i: int|
            0 <= i < t.len() && (t[i] == TokenView::Symbol(Symbol::Is) || t[i] == TokenView::Symbol(Symbol::Greater)
                || t[i] == TokenView::Symbol(Symbol::Less));
        assert(t[i] != TokenView::Symbol(Symbol::Is));
    }
}

/// Token lists put back together, with a comma between each two.
pub open spec fn join_commas(lists: Seq<Seq<TokenView>>) -> Seq<TokenView>
    decreases lists.len(),
{
    if lists.len() == 0 {
        Seq::empty()
    } else if lists.len() == 1 {
        lists[0]
    } else {
        join_commas(lists.drop_last()) + seq![TokenView::Symbol(Symbol::Comma)] + lists.last()
    }
}

proof fn lemma_join_extend(done: Seq<Seq<TokenView>>, cur: Seq<TokenView>, t: TokenView)
    ensures
        join_commas(done.push(cur.push(t))) == join_commas(done.push(cur)).push(t),
{
    let a = done.push(cur.push(t));
    let b = done.push(cur);
    assert(a.drop_last() =~= done);
    assert(b.drop_last() =~= done);
    if done.len() == 0 {
        assert(join_commas(a) == cur.push(t));
        assert(join_commas(b) == cur);
    } else {
        assert(join_commas(a) =~= join_commas(b).push(t));
    }
}

proof fn lemma_join_comma(done: Seq<Seq<TokenView>>, cur: Seq<TokenView>)
    ensures
        join_commas(done.push(cur).push(Seq::empty())) == join_commas(done.push(cur)).push(
            TokenView::Symbol(Symbol::Comma),
        ),
{
    let a = done.push(cur).push(Seq::<TokenView>::empty());
    assert(a.drop_last() =~= done.push(cur));
    assert(join_commas(a) =~= join_commas(done.push(cur)).push(TokenView::Symbol(Symbol::Comma)));
}

/// The number of commas among the tokens.
pub open spec fn count_commas(ts: Seq<TokenView>) -> nat
    decreases ts.len(),
{
    if ts.len() == 0 {
        0
    } else {
        count_commas(ts.drop_last()) + if ts.last() == TokenView::Symbol(Symbol::Comma) { 1nat } else { 0nat }
    }
}

/// Whether no token of `t` is a comma.
pub open spec fn comma_free(t: Seq<TokenView>) -> bool {
    forall|i: int| 0 <= i < t.len() ==> t[i] != TokenView::Symbol(Symbol::Comma)
}

proof fn lemma_split_joins(
    ts: Seq<TokenView>,
    j: int,
    done: Seq<Seq<TokenView>>,
    cur: Seq<TokenView>,
    count: int,
    path: Seq<char>,
    line: int,
    column: int,
)
    requires
        0 <= j <= ts.len(),
        join_commas(done.push(cur)) == ts.subrange(0, j),
        done.len() == count_commas(ts.subrange(0, j)),
        forall|x: int| 0 <= x < done.len() ==> comma_free(#[trigger] done[x]),
        comma_free(cur),
        (cur.len() == 0) == (j == 0 || ts[j - 1] == TokenView::Symbol(Symbol::Comma)),
    ensures
        split_commas(ts, j, done, cur, count, path, line, column) matches Ok(r) ==> {
            &&& join_commas(r) == ts
            &&& r.len() == count_commas(ts) + 1
            &&& forall|x: int| 0 <= x < r.len() ==> comma_free(#[trigger] r[x])
        },
        commas_apart(ts) ==> split_commas(ts, j, done, cur, count, path, line, column) is Ok,
    decreases ts.len() - j,
{
    if j < ts.len() {
        let next = ts.subrange(0, j + 1);
        assert(ts.subrange(0, j).push(ts[j]) =~= next);
        assert(next.drop_last() =~= ts.subrange(0, j));
        if ts[j] == TokenView::Symbol(Symbol::Comma) {
            if cur.len() != 0 {
                lemma_join_comma(done, cur);
                let d2 = done.push(cur);
                assert forall|x: int| 0 <= x < d2.len() implies comma_free(#[trigger] d2[x]) by {
                    if x < done.len() {
                        assert(d2[x] == done[x]);
                    }
                }
                lemma_split_joins(ts, j + 1, d2, Seq::empty(), count + 1, path, line, column);
            } else if commas_apart(ts) {
                assert(j > 0);
                assert(ts[j - 1] != TokenView::Symbol(Symbol::Comma));
            }
        } else {
            lemma_join_extend(done, cur, ts[j]);
            let c2 = cur.push(ts[j]);
            assert forall|i: int| 0 <= i < c2.len() implies c2[i] != TokenView::Symbol(Symbol::Comma) by {
                if i < cur.len() {
                    assert(c2[i] == cur[i]);
                }
            }
            lemma_split_joins(ts, j + 1, done, c2, count, path, line, column);
        }
    } else {
        assert(ts.subrange(0, j) =~= ts);
        let r = done.push(cur);
        assert forall|x: int| 0 <= x < r.len() implies comma_free(#[trigger] r[x]) by {
            if x < done.len() {
                assert(r[x] == done[x]);
            }
        }
    }
}

/// `remove_comma` splits the tokens at their commas: where it succeeds it
/// gives one list more than there are commas, no list holds a comma, and
/// the lists joined back with commas are the tokens it was given. It
/// succeeds whenever no comma comes first and no two commas stand side by
/// side.
pub proof fn law_remove_comma_splits(ts: Seq<TokenView>, path: Seq<char>, line: int, arg_start: int, start: int)
    ensures
        remove_comma_spec(ts, path, line, arg_start, start) matches Ok(r) ==> {
            &&& join_commas(r) == ts
            &&& r.len() == count_commas(ts) + 1
            &&& forall|x: int| 0 <= x < r.len() ==> comma_free(#[trigger] r[x])
        },
        commas_apart(ts) ==> remove_comma_spec(ts, path, line, arg_start, start) is Ok,
{
    let e = Seq::<Seq<TokenView>>::empty();
    let c = Seq::<TokenView>::empty();
    assert(e.push(c).len() == 1);
    assert(join_commas(e.push(c)) == c);
    assert(ts.subrange(0, 0) =~= c);
    lemma_split_joins(ts, 0, e, c, 0, path, line, arg_start - start);
}

proof fn lemma_find_in_range<K: Fn(FloatQuery) -> FloatAnswer>(
    k: K,
    s: Seq<(TokenView, TokenView)>,
    key: TokenView,
    i: int,
)
    requires
        0 <= i,
    ensures
        find_entry(k, s, key, i) matches Some(j) ==> i <= j < s.len() && key_match(k, s[j].0, key),
    decreases s.len() - i,
{
    if i < s.len() && !key_match(k, s[i].0, key) {
        lemma_find_in_range(k, s, key, i + 1);
    }
}

proof fn lemma_find_same_keys<K: Fn(FloatQuery) -> FloatAnswer>(
    k: K,
    s: Seq<(TokenView, TokenView)>,
    t: Seq<(TokenView, TokenView)>,
    key: TokenView,
    i: int,
)
    requires
        s.len() == t.len(),
        forall|j: int| 0 <= j < s.len() ==> (#[trigger] s[j]).0 == t[j].0,
    ensures
        find_entry(k, s, key, i) == find_entry(k, t, key, i),
    decreases s.len() - i,
{
    if 0 <= i < s.len() {
        assert(s[i].0 == t[i].0);
        lemma_find_same_keys(k, s, t, key, i + 1);
    }
}

proof fn lemma_find_push<K: Fn(FloatQuery) -> FloatAnswer>(
    k: K,
    s: Seq<(TokenView, TokenView)>,
    e: (TokenView, TokenView),
    key: TokenView,
    i: int,
)
    requires
        0 <= i <= s.len(),
    ensures
        find_entry(k, s.push(e), key, i) == match find_entry(k, s, key, i) {
            Some(j) => Some(j),
            None => if key_match(k, e.0, key) { Some(s.len() as int) } else { None },
        },
    decreases s.len() - i,
{
    let t = s.push(e);
    if i < s.len() {
        assert(t[i] == s[i]);
        lemma_find_push(k, s, e, key, i + 1);
    } else {
        assert(t[i] == e);
        if !key_match(k, e.0, key) {
            assert(find_entry(k, t, key, i + 1) is None);
        }
    }
}

/// Binding a key and then looking it up gives the bound value, whether the
/// key was bound before or not, for every key that equals itself (a key
/// holding `NaN` is never found again); looking up any other key gives
/// what it gave before.
pub proof fn law_variable_add_then_get<K: Fn(FloatQuery) -> FloatAnswer>(
    k: K,
    s: Seq<(TokenView, TokenView)>,
    key: TokenView,
    value: TokenView,
    other: TokenView,
)
    requires
        token_eq(k, key, key),
        other != key,
    ensures
        looked_up(k, added_entry(k, s, key, value), key) == Some(value),
        looked_up(k, added_entry(k, s, key, value), other) == looked_up(k, s, other),
{
    let n = added_entry(k, s, key, value);
    lemma_find_in_range(k, s, key, 0);
    lemma_find_in_range(k, s, other, 0);
    match find_entry(k, s, key, 0) {
        Some(i) => {
            assert forall|j: int| 0 <= j < s.len() implies (#[trigger] s[j]).0 == n[j].0 by {}
            lemma_find_same_keys(k, s, n, key, 0);
            lemma_find_same_keys(k, s, n, other, 0);
            if let Some(j) = find_entry(k, s, other, 0) {
                assert(j != i);
            }
        },
        None => {
            lemma_find_push(k, s, (key, value), key, 0);
            lemma_find_push(k, s, (key, value), other, 0);
            if let Some(j) = find_entry(k, s, other, 0) {
                assert(n[j] == s[j]);
            }
        },
    }
}

/// Whether no token of `t` is a function call.
pub open spec fn no_calls(t: Seq<TokenView>) -> bool {
    forall|i: int| 0 <= i < t.len() ==> !(t[i] is Function)
}

/// `parse` prints only for `prnt` calls: on tokens without function calls
/// it prints nothing.
pub proof fn law_parse_prints_only_calls<K: Fn(FloatQuery) -> FloatAnswer>(k: K, tokens: Seq<TokenView>, out: Seq<char>)
    requires
        no_calls(tokens),
    ensures
        parse_seq(k, tokens, out).1 == out,
    decreases tokens.len(),
{
    if tokens.len() > 0 {
        let rest = tokens.subrange(1, tokens.len() as int);
        assert forall|i: int| 0 <= i < rest.len() implies !(rest[i] is Function) by {
            assert(rest[i] == tokens[i + 1]);
        }
        assert(!(tokens[0] is Function));
        law_parse_prints_only_calls(k, rest, out);
    }
}

} // verus!
