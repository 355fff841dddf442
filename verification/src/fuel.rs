//! Fuel only bounds how deep evaluations nest: more of it never changes a
//! run that finished.
use vstd::prelude::*;
use crate::calc::EvalErrorView;
use crate::class::{class_of, ClassView};
use crate::float::{FloatAnswer, FloatQuery};
use crate::semantics::{
    all_numeric, assign_step, block_body, block_fns, block_step, block_value, call_step, calc_fi_run, cwv,
    cwv_pass1, cwv_pass2, eval_from, eval_run, eval_step, has_comparison, if_cond, if_step, method_of,
    prnt_from, prnt_values, repeat_loop, repeat_step, run_block_at, run_method_run, truthy, Run, Step,
};
use crate::token::{Symbol, TokenView};
use crate::unfold::{
    lemma_assign_step, lemma_block_fns, lemma_block_step, lemma_block_value, lemma_call_step,
    lemma_calc_fi_run, lemma_cwv, lemma_cwv_pass1, lemma_cwv_pass2, lemma_eval_from, lemma_eval_run,
    lemma_eval_step, lemma_if_cond, lemma_if_step, lemma_prnt_from, lemma_repeat_loop, lemma_repeat_step,
    lemma_run_block_at, lemma_run_method_run,
};
use crate::value::{resolve_one, resolved, subst_tokens, Bindings};

verus! {

/// The run stopped for want of fuel.
pub open spec fn exhausted<T>(run: Run<T>) -> bool {
    run.result == Err::<T, EvalErrorView>(EvalErrorView::Exhausted)
}

/// The round stopped the evaluation for want of fuel.
pub open spec fn step_exhausted(st: Step) -> bool {
    match st {
        Step::Stop(run) => exhausted(run),
        _ => false,
    }
}

proof fn mono_eval_run<K: Fn(FloatQuery) -> FloatAnswer>(
    k: K,
    f1: nat,
    f2: nat,
    tokens: Seq<TokenView>,
    vars: Bindings,
    out: Seq<char>,
)
    requires
        f1 <= f2,
        !exhausted(eval_run(k, f1, tokens, vars, out)),
    ensures
        eval_run(k, f2, tokens, vars, out) == eval_run(k, f1, tokens, vars, out),
    decreases f1, 0int, 0int,
{
    lemma_eval_run(k, f1, tokens, vars, out);
    lemma_eval_run(k, f2, tokens, vars, out);
    if f1 > 0 {
        mono_eval_from(k, (f1 - 1) as nat, (f2 - 1) as nat, tokens, 0, TokenView::Integer(0), vars, out);
    }
}

proof fn mono_eval_from<K: Fn(FloatQuery) -> FloatAnswer>(
    k: K,
    f1: nat,
    f2: nat,
    tokens: Seq<TokenView>,
    i: int,
    last: TokenView,
    vars: Bindings,
    out: Seq<char>,
)
    requires
        f1 <= f2,
        !exhausted(eval_from(k, f1, tokens, i, last, vars, out)),
    ensures
        eval_from(k, f2, tokens, i, last, vars, out) == eval_from(k, f1, tokens, i, last, vars, out),
    decreases f1, 8int, tokens.len() - i,
{
    lemma_eval_from(k, f1, tokens, i, last, vars, out);
    lemma_eval_from(k, f2, tokens, i, last, vars, out);
    if 0 <= i < tokens.len() {
        let token = resolve_one(tokens[i], vars);
        mono_eval_step(k, f1, f2, tokens, i, token, last, vars, out);
        match eval_step(k, f1, tokens, i, token, last, vars, out) {
            Step::Next(adv, last2, vars2, out2) => {
                if i + 1 + adv < tokens.len() {
                    mono_eval_from(k, f1, f2, tokens, i + 1 + adv, last2, vars2, out2);
                }
            },
            Step::Stop(_) => {},
        }
    }
}

proof fn mono_eval_step<K: Fn(FloatQuery) -> FloatAnswer>(
    k: K,
    f1: nat,
    f2: nat,
    tokens: Seq<TokenView>,
    i: int,
    token: TokenView,
    last: TokenView,
    vars: Bindings,
    out: Seq<char>,
)
    requires
        f1 <= f2,
        !step_exhausted(eval_step(k, f1, tokens, i, token, last, vars, out)),
    ensures
        eval_step(k, f2, tokens, i, token, last, vars, out) == eval_step(k, f1, tokens, i, token, last, vars, out),
    decreases f1, 7int, 0int,
{
    lemma_eval_step(k, f1, tokens, i, token, last, vars, out);
    lemma_eval_step(k, f2, tokens, i, token, last, vars, out);
    match token {
        TokenView::Integer(_) | TokenView::Float(_) | TokenView::String(_) | TokenView::Boolean(_) => {},
        TokenView::Symbol(Symbol::Equal) => mono_assign_step(k, f1, f2, tokens, i, last, vars, out),
        TokenView::Function(name, args) => mono_call_step(k, f1, f2, tokens, i, name, args, vars, out),
        TokenView::If(c) => mono_if_step(k, f1, f2, tokens, i, c, last, vars, out),
        TokenView::Repeat(c) => mono_repeat_step(k, f1, f2, tokens, i, c, last, vars, out),
        TokenView::Block(b) => mono_block_step(k, f1, f2, b, vars, out),
        _ => {},
    }
}

proof fn mono_assign_step<K: Fn(FloatQuery) -> FloatAnswer>(
    k: K,
    f1: nat,
    f2: nat,
    tokens: Seq<TokenView>,
    i: int,
    last: TokenView,
    vars: Bindings,
    out: Seq<char>,
)
    requires
        f1 <= f2,
        !step_exhausted(assign_step(k, f1, tokens, i, last, vars, out)),
    ensures
        assign_step(k, f2, tokens, i, last, vars, out) == assign_step(k, f1, tokens, i, last, vars, out),
{
    lemma_assign_step(k, f1, tokens, i, last, vars, out);
    lemma_assign_step(k, f2, tokens, i, last, vars, out);
}

proof fn mono_call_step<K: Fn(FloatQuery) -> FloatAnswer>(
    k: K,
    f1: nat,
    f2: nat,
    tokens: Seq<TokenView>,
    i: int,
    name: Seq<char>,
    args: Seq<Seq<TokenView>>,
    vars: Bindings,
    out: Seq<char>,
)
    requires
        f1 <= f2,
        !step_exhausted(call_step(k, f1, tokens, i, name, args, vars, out)),
    ensures
        call_step(k, f2, tokens, i, name, args, vars, out) == call_step(k, f1, tokens, i, name, args, vars, out),
    decreases f1, 5int, 0int,
{
    lemma_call_step(k, f1, tokens, i, name, args, vars, out);
    lemma_call_step(k, f2, tokens, i, name, args, vars, out);
    if name == "prnt"@ {
        if !exhausted(prnt_from(k, f1, args, 0, vars, out)) {
            mono_prnt_from(k, f1, f2, args, 0, vars, out);
        }
    }
}

proof fn mono_prnt_from<K: Fn(FloatQuery) -> FloatAnswer>(
    k: K,
    f1: nat,
    f2: nat,
    args: Seq<Seq<TokenView>>,
    j: int,
    vars: Bindings,
    out: Seq<char>,
)
    requires
        f1 <= f2,
        !exhausted(prnt_from(k, f1, args, j, vars, out)),
    ensures
        prnt_from(k, f2, args, j, vars, out) == prnt_from(k, f1, args, j, vars, out),
    decreases f1, 4int, args.len() - j,
{
    lemma_prnt_from(k, f1, args, j, vars, out);
    lemma_prnt_from(k, f2, args, j, vars, out);
    if 0 <= j < args.len() {
        let changed = prnt_values(args[j], vars);
        let c = cwv(k, f1, changed, Map::empty(), out);
        if !exhausted(c) {
            mono_cwv(k, f1, f2, changed, Map::empty(), out);
            match c.result {
                Err(_) => {},
                Ok(v) => if v == TokenView::Nothing {
                    let r = eval_run(k, f1, changed, vars, c.out);
                    if !exhausted(r) {
                        mono_eval_run(k, f1, f2, changed, vars, c.out);
                    }
                }
            }
        }
    }
}

proof fn mono_if_cond<K: Fn(FloatQuery) -> FloatAnswer>(
    k: K,
    f1: nat,
    f2: nat,
    c: Seq<TokenView>,
    vars: Bindings,
    out: Seq<char>,
)
    requires
        f1 <= f2,
        !exhausted(if_cond(k, f1, c, vars, out)),
    ensures
        if_cond(k, f2, c, vars, out) == if_cond(k, f1, c, vars, out),
    decreases f1, 4int, 0int,
{
    lemma_if_cond(k, f1, c, vars, out);
    lemma_if_cond(k, f2, c, vars, out);
    let s = subst_tokens(c, vars);
    if s.len() != 1 {
        let cv = cwv(k, f1, s, vars, out);
        if !exhausted(cv) {
            mono_cwv(k, f1, f2, s, vars, out);
            if !exhausted(eval_run(k, f1, s, vars, cv.out)) {
                mono_eval_run(k, f1, f2, s, vars, cv.out);
            }
        }
    }
}

proof fn mono_run_block_at<K: Fn(FloatQuery) -> FloatAnswer>(
    k: K,
    f1: nat,
    f2: nat,
    tokens: Seq<TokenView>,
    j: int,
    vars: Bindings,
    out: Seq<char>,
)
    requires
        f1 <= f2,
        !exhausted(run_block_at(k, f1, tokens, j, vars, out)),
    ensures
        run_block_at(k, f2, tokens, j, vars, out) == run_block_at(k, f1, tokens, j, vars, out),
    decreases f1, 2int, 0int,
{
    lemma_run_block_at(k, f1, tokens, j, vars, out);
    lemma_run_block_at(k, f2, tokens, j, vars, out);
    if 0 <= j < tokens.len() && tokens[j] is Block {
        if !exhausted(eval_run(k, f1, block_body(tokens[j]), vars, out)) {
            mono_eval_run(k, f1, f2, block_body(tokens[j]), vars, out);
        }
    }
}

proof fn mono_if_step<K: Fn(FloatQuery) -> FloatAnswer>(
    k: K,
    f1: nat,
    f2: nat,
    tokens: Seq<TokenView>,
    i: int,
    c: Seq<TokenView>,
    last: TokenView,
    vars: Bindings,
    out: Seq<char>,
)
    requires
        f1 <= f2,
        !step_exhausted(if_step(k, f1, tokens, i, c, last, vars, out)),
    ensures
        if_step(k, f2, tokens, i, c, last, vars, out) == if_step(k, f1, tokens, i, c, last, vars, out),
    decreases f1, 5int, 0int,
{
    lemma_if_step(k, f1, tokens, i, c, last, vars, out);
    lemma_if_step(k, f2, tokens, i, c, last, vars, out);
    let cr = if_cond(k, f1, c, vars, out);
    if !exhausted(cr) {
        mono_if_cond(k, f1, f2, c, vars, out);
        match cr.result {
            Err(_) => {},
            Ok((cond, vars1)) => {
                if truthy(cond) && !exhausted(run_block_at(k, f1, tokens, i + 1, vars1, cr.out)) {
                    mono_run_block_at(k, f1, f2, tokens, i + 1, vars1, cr.out);
                }
                let r1 = if truthy(cond) {
                    run_block_at(k, f1, tokens, i + 1, vars1, cr.out)
                } else {
                    Run { result: Ok(vars1), out: cr.out }
                };
                match r1.result {
                    Err(_) => {},
                    Ok(vars2) => {
                        if !exhausted(run_block_at(k, f1, tokens, i + 3, vars2, r1.out)) {
                            mono_run_block_at(k, f1, f2, tokens, i + 3, vars2, r1.out);
                        }
                    },
                }
            },
        }
    }
}

proof fn mono_repeat_loop<K: Fn(FloatQuery) -> FloatAnswer>(
    k: K,
    f1: nat,
    f2: nat,
    body: Seq<TokenView>,
    n: int,
    vars: Bindings,
    out: Seq<char>,
)
    requires
        f1 <= f2,
        !exhausted(repeat_loop(k, f1, body, n, vars, out)),
    ensures
        repeat_loop(k, f2, body, n, vars, out) == repeat_loop(k, f1, body, n, vars, out),
    decreases f1, 2int, n,
{
    lemma_repeat_loop(k, f1, body, n, vars, out);
    lemma_repeat_loop(k, f2, body, n, vars, out);
    if n > 0 {
        let r = eval_run(k, f1, body, vars, out);
        if !exhausted(r) {
            mono_eval_run(k, f1, f2, body, vars, out);
            match r.result {
                Err(_) => {},
                Ok((_, v)) => {
                    if !exhausted(repeat_loop(k, f1, body, n - 1, v, r.out)) {
                        mono_repeat_loop(k, f1, f2, body, n - 1, v, r.out);
                    }
                },
            }
        }
    }
}

proof fn mono_repeat_step<K: Fn(FloatQuery) -> FloatAnswer>(
    k: K,
    f1: nat,
    f2: nat,
    tokens: Seq<TokenView>,
    i: int,
    c: Seq<TokenView>,
    last: TokenView,
    vars: Bindings,
    out: Seq<char>,
)
    requires
        f1 <= f2,
        !step_exhausted(repeat_step(k, f1, tokens, i, c, last, vars, out)),
    ensures
        repeat_step(k, f2, tokens, i, c, last, vars, out) == repeat_step(k, f1, tokens, i, c, last, vars, out),
    decreases f1, 4int, 0int,
{
    lemma_repeat_step(k, f1, tokens, i, c, last, vars, out);
    lemma_repeat_step(k, f2, tokens, i, c, last, vars, out);
    let cv = cwv(k, f1, c, vars, out);
    if !exhausted(cv) {
        mono_cwv(k, f1, f2, c, vars, out);
        match cv.result {
            Err(_) => {},
            Ok(count) => {
                if i + 1 < tokens.len() && tokens[i + 1] is Block {
                    match count {
                        TokenView::Integer(n) => {
                            let body = block_body(tokens[i + 1]);
                            if !exhausted(repeat_loop(k, f1, body, n as int, vars, cv.out)) {
                                mono_repeat_loop(k, f1, f2, body, n as int, vars, cv.out);
                            }
                        },
                        _ => {},
                    }
                }
            },
        }
    }
}

proof fn mono_block_fns<K: Fn(FloatQuery) -> FloatAnswer>(
    k: K,
    f1: nat,
    f2: nat,
    b: Seq<TokenView>,
    j: int,
    acc: Seq<TokenView>,
    vars: Bindings,
    out: Seq<char>,
)
    requires
        f1 <= f2,
        !exhausted(block_fns(k, f1, b, j, acc, vars, out)),
    ensures
        block_fns(k, f2, b, j, acc, vars, out) == block_fns(k, f1, b, j, acc, vars, out),
    decreases f1, 2int, b.len() - j,
{
    lemma_block_fns(k, f1, b, j, acc, vars, out);
    lemma_block_fns(k, f2, b, j, acc, vars, out);
    if 0 <= j < b.len() {
        if b[j] is Function {
            let r = eval_run(k, f1, seq![b[j]], vars, out);
            if !exhausted(r) {
                mono_eval_run(k, f1, f2, seq![b[j]], vars, out);
                match r.result {
                    Err(_) => {},
                    Ok((res, v)) => {
                        if !exhausted(block_fns(k, f1, b, j + 1, acc.push(res), v, r.out)) {
                            mono_block_fns(k, f1, f2, b, j + 1, acc.push(res), v, r.out);
                        }
                    },
                }
            }
        } else {
            if !exhausted(block_fns(k, f1, b, j + 1, acc.push(b[j]), vars, out)) {
                mono_block_fns(k, f1, f2, b, j + 1, acc.push(b[j]), vars, out);
            }
        }
    }
}

proof fn mono_block_value<K: Fn(FloatQuery) -> FloatAnswer>(
    k: K,
    f1: nat,
    f2: nat,
    p: Seq<TokenView>,
    vars: Bindings,
    out: Seq<char>,
)
    requires
        f1 <= f2,
        !exhausted(block_value(k, f1, p, vars, out)),
    ensures
        block_value(k, f2, p, vars, out) == block_value(k, f1, p, vars, out),
    decreases f1, 5int, 0int,
{
    lemma_block_value(k, f1, p, vars, out);
    lemma_block_value(k, f2, p, vars, out);
    if p.len() > 0 {
        if p[0] is String {
            if !exhausted(eval_run(k, f1, p, vars, out)) {
                mono_eval_run(k, f1, f2, p, vars, out);
            }
        } else {
            let s = subst_tokens(p, vars);
            let c1 = calc_fi_run(k, f1, s, vars, out);
            if !exhausted(c1) {
                mono_calc_fi(k, f1, f2, s, vars, out);
                let c2 = cwv(k, f1, s, vars, c1.out);
                if !exhausted(c2) {
                    mono_cwv(k, f1, f2, s, vars, c1.out);
                    let c3 = cwv(k, f1, s, Map::empty(), c2.out);
                    if !exhausted(c3) {
                        mono_cwv(k, f1, f2, s, Map::empty(), c2.out);
                        if !exhausted(eval_run(k, f1, s, vars, c3.out)) {
                            mono_eval_run(k, f1, f2, s, vars, c3.out);
                        }
                    }
                }
            }
        }
    }
}

proof fn mono_block_step<K: Fn(FloatQuery) -> FloatAnswer>(
    k: K,
    f1: nat,
    f2: nat,
    b: Seq<TokenView>,
    vars: Bindings,
    out: Seq<char>,
)
    requires
        f1 <= f2,
        !step_exhausted(block_step(k, f1, b, vars, out)),
    ensures
        block_step(k, f2, b, vars, out) == block_step(k, f1, b, vars, out),
    decreases f1, 6int, 0int,
{
    lemma_block_step(k, f1, b, vars, out);
    lemma_block_step(k, f2, b, vars, out);
    let p = block_fns(k, f1, b, 0, Seq::empty(), vars, out);
    if !exhausted(p) {
        mono_block_fns(k, f1, f2, b, 0, Seq::empty(), vars, out);
        match p.result {
            Err(_) => {},
            Ok((processed, vars1)) => {
                if !exhausted(block_value(k, f1, processed, vars1, p.out)) {
                    mono_block_value(k, f1, f2, processed, vars1, p.out);
                }
            },
        }
    }
}

proof fn mono_run_method<K: Fn(FloatQuery) -> FloatAnswer>(
    k: K,
    f1: nat,
    f2: nat,
    c: ClassView,
    name: Seq<char>,
    args: Bindings,
    out: Seq<char>,
)
    requires
        f1 <= f2,
        !exhausted(run_method_run(k, f1, c, name, args, out)),
    ensures
        run_method_run(k, f2, c, name, args, out) == run_method_run(k, f1, c, name, args, out),
    decreases f1, 1int, 0int,
{
    lemma_run_method_run(k, f1, c, name, args, out);
    lemma_run_method_run(k, f2, c, name, args, out);
    if c.methods.contains_key(name) {
        let body = seq![c.methods[name]];
        let merged = c.fields.union_prefer_right(args);
        if !exhausted(eval_run(k, f1, body, merged, out)) {
            mono_eval_run(k, f1, f2, body, merged, out);
        }
    }
}

proof fn mono_cwv_pass1<K: Fn(FloatQuery) -> FloatAnswer>(
    k: K,
    f1: nat,
    f2: nat,
    t: Seq<TokenView>,
    i: int,
    acc: Seq<TokenView>,
    current: TokenView,
    out: Seq<char>,
)
    requires
        f1 <= f2,
        !exhausted(cwv_pass1(k, f1, t, i, acc, current, out)),
    ensures
        cwv_pass1(k, f2, t, i, acc, current, out) == cwv_pass1(k, f1, t, i, acc, current, out),
    decreases f1, 2int, t.len() - i,
{
    lemma_cwv_pass1(k, f1, t, i, acc, current, out);
    lemma_cwv_pass1(k, f2, t, i, acc, current, out);
    if 0 <= i < t.len() {
        match t[i] {
            TokenView::Symbol(op) => if i + 1 < t.len() {
                let next = t[i + 1];
                if op == Symbol::Multiply || op == Symbol::Divide || op == Symbol::Mod {
                    let args = Map::empty().insert("rhs"@, next);
                    let r = run_method_run(k, f1, class_of(k, current), method_of(op), args, out);
                    if !exhausted(r) {
                        mono_run_method(k, f1, f2, class_of(k, current), method_of(op), args, out);
                        match r.result {
                            Err(_) => {},
                            Ok(c2) => {
                                if !exhausted(cwv_pass1(k, f1, t, i + 2, acc, c2, r.out)) {
                                    mono_cwv_pass1(k, f1, f2, t, i + 2, acc, c2, r.out);
                                }
                            },
                        }
                    }
                } else if op == Symbol::Plus || op == Symbol::Minus || op == Symbol::Is || op == Symbol::Greater
                    || op == Symbol::Less {
                    let acc2 = acc.push(current).push(TokenView::Symbol(op));
                    if !exhausted(cwv_pass1(k, f1, t, i + 2, acc2, next, out)) {
                        mono_cwv_pass1(k, f1, f2, t, i + 2, acc2, next, out);
                    }
                } else {
                    if !exhausted(cwv_pass1(k, f1, t, i + 2, acc, current, out)) {
                        mono_cwv_pass1(k, f1, f2, t, i + 2, acc, current, out);
                    }
                }
            },
            _ => {
                if !exhausted(cwv_pass1(k, f1, t, i + 1, acc, current, out)) {
                    mono_cwv_pass1(k, f1, f2, t, i + 1, acc, current, out);
                }
            },
        }
    }
}

proof fn mono_cwv_pass2<K: Fn(FloatQuery) -> FloatAnswer>(
    k: K,
    f1: nat,
    f2: nat,
    rt: Seq<TokenView>,
    i: int,
    acc: Seq<TokenView>,
    cur: ClassView,
    out: Seq<char>,
)
    requires
        f1 <= f2,
        !exhausted(cwv_pass2(k, f1, rt, i, acc, cur, out)),
    ensures
        cwv_pass2(k, f2, rt, i, acc, cur, out) == cwv_pass2(k, f1, rt, i, acc, cur, out),
    decreases f1, 2int, rt.len() - i,
{
    lemma_cwv_pass2(k, f1, rt, i, acc, cur, out);
    lemma_cwv_pass2(k, f2, rt, i, acc, cur, out);
    if 0 <= i < rt.len() {
        match rt[i] {
            TokenView::Symbol(op) => if i + 1 < rt.len() {
                let next = rt[i + 1];
                if op == Symbol::Plus || op == Symbol::Minus {
                    let args = Map::empty().insert("rhs"@, next);
                    let r = run_method_run(k, f1, cur, method_of(op), args, out);
                    if !exhausted(r) {
                        mono_run_method(k, f1, f2, cur, method_of(op), args, out);
                        match r.result {
                            Err(_) => {},
                            Ok(res) => {
                                if !exhausted(cwv_pass2(k, f1, rt, i + 2, acc, class_of(k, res), r.out)) {
                                    mono_cwv_pass2(k, f1, f2, rt, i + 2, acc, class_of(k, res), r.out);
                                }
                            },
                        }
                    }
                } else if op == Symbol::Is || op == Symbol::Greater || op == Symbol::Less {
                    let r = run_method_run(k, f1, cur, "!!format!!"@, Map::empty(), out);
                    if !exhausted(r) {
                        mono_run_method(k, f1, f2, cur, "!!format!!"@, Map::empty(), out);
                        match r.result {
                            Err(_) => {},
                            Ok(fm) => {
                                let acc2 = acc.push(fm).push(TokenView::Symbol(op));
                                if !exhausted(cwv_pass2(k, f1, rt, i + 2, acc2, class_of(k, next), r.out)) {
                                    mono_cwv_pass2(k, f1, f2, rt, i + 2, acc2, class_of(k, next), r.out);
                                }
                            },
                        }
                    }
                } else {
                    if !exhausted(cwv_pass2(k, f1, rt, i + 2, acc, cur, out)) {
                        mono_cwv_pass2(k, f1, f2, rt, i + 2, acc, cur, out);
                    }
                }
            },
            _ => {
                if !exhausted(cwv_pass2(k, f1, rt, i + 1, acc, cur, out)) {
                    mono_cwv_pass2(k, f1, f2, rt, i + 1, acc, cur, out);
                }
            },
        }
    }
}

proof fn mono_cwv<K: Fn(FloatQuery) -> FloatAnswer>(
    k: K,
    f1: nat,
    f2: nat,
    tokens: Seq<TokenView>,
    vars: Bindings,
    out: Seq<char>,
)
    requires
        f1 <= f2,
        !exhausted(cwv(k, f1, tokens, vars, out)),
    ensures
        cwv(k, f2, tokens, vars, out) == cwv(k, f1, tokens, vars, out),
    decreases f1, 3int, 0int,
{
    lemma_cwv(k, f1, tokens, vars, out);
    lemma_cwv(k, f2, tokens, vars, out);
    if tokens.len() > 0 {
        let t = resolved(tokens, vars);
        let p1 = cwv_pass1(k, f1, t, 1, Seq::empty(), t[0], out);
        if !exhausted(p1) {
            mono_cwv_pass1(k, f1, f2, t, 1, Seq::empty(), t[0], out);
            match p1.result {
                Err(_) => {},
                Ok(rt) => {
                    let p2 = cwv_pass2(k, f1, rt, 1, Seq::empty(), class_of(k, rt[0]), p1.out);
                    if !exhausted(p2) {
                        mono_cwv_pass2(k, f1, f2, rt, 1, Seq::empty(), class_of(k, rt[0]), p1.out);
                        match p2.result {
                            Err(_) => {},
                            Ok((_, cur)) => {
                                if !exhausted(run_method_run(k, f1, cur, "!!format!!"@, Map::empty(), p2.out)) {
                                    mono_run_method(k, f1, f2, cur, "!!format!!"@, Map::empty(), p2.out);
                                }
                            },
                        }
                    }
                },
            }
        }
    }
}

proof fn mono_calc_fi<K: Fn(FloatQuery) -> FloatAnswer>(
    k: K,
    f1: nat,
    f2: nat,
    tokens: Seq<TokenView>,
    vars: Bindings,
    out: Seq<char>,
)
    requires
        f1 <= f2,
        !exhausted(calc_fi_run(k, f1, tokens, vars, out)),
    ensures
        calc_fi_run(k, f2, tokens, vars, out) == calc_fi_run(k, f1, tokens, vars, out),
    decreases f1, 4int, 0int,
{
    lemma_calc_fi_run(k, f1, tokens, vars, out);
    lemma_calc_fi_run(k, f2, tokens, vars, out);
    let t = resolved(tokens, vars);
    if all_numeric(t) && has_comparison(t) {
        mono_cwv(k, f1, f2, tokens, vars, out);
    }
}

/// More fuel never changes a run that finished: a run that did not stop for
/// want of fuel gives the same value, variables, error and output with any
/// larger fuel. The fuel only bounds how deep evaluations nest; it takes no
/// part in what they compute.
pub proof fn law_more_fuel_same_run<K: Fn(FloatQuery) -> FloatAnswer>(
    k: K,
    fuel: nat,
    more: nat,
    tokens: Seq<TokenView>,
    vars: Bindings,
    out: Seq<char>,
)
    requires
        fuel <= more,
        eval_run(k, fuel, tokens, vars, out).result != Err::<(TokenView, Bindings), EvalErrorView>(EvalErrorView::Exhausted),
    ensures
        eval_run(k, more, tokens, vars, out) == eval_run(k, fuel, tokens, vars, out),
{
    mono_eval_run(k, fuel, more, tokens, vars, out);
}

} // verus!
