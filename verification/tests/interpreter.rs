use tem_core::calc::EvalError;
use tem_core::env::Env;
use tem_core::float::{FloatAnswer, FloatOp, FloatOrder, FloatQuery};
use tem_core::interp::{calc_fi, calc_with_variables, eval};
use tem_core::token::{FakeFloat, Symbol, Token};
use tem_core::tokenizer::tokenizer;

fn float_of(f: FakeFloat) -> f64 {
    f64::from_bits(f.0)
}

fn bits(x: f64) -> FakeFloat {
    FakeFloat(x.to_bits())
}

fn kernel(q: FloatQuery) -> FloatAnswer {
    match q {
        FloatQuery::Parse(s) => FloatAnswer::Parsed(s.parse::<f64>().ok().map(|x| bits(if x.is_nan() { f64::NAN } else { x }))),
        FloatQuery::Display(f) => FloatAnswer::Text(float_of(f).to_string()),
        FloatQuery::DebugText(f) => FloatAnswer::Text(format!("{:?}", float_of(f))),
        FloatQuery::FromInteger(n) => FloatAnswer::Value(bits(n as f64)),
        FloatQuery::ToInteger(f) => FloatAnswer::Integer(float_of(f) as isize),
        FloatQuery::Arith(op, a, b) => {
            let (x, y) = (float_of(a), float_of(b));
            let r = match op {
                FloatOp::Add => x + y,
                FloatOp::Sub => x - y,
                FloatOp::Mul => x * y,
                FloatOp::Div => x / y,
                FloatOp::Rem => x % y,
            };
            // Every NaN is answered as the one canonical NaN, so that equal
            // questions always get equal answers.
            let r = if r.is_nan() { f64::NAN } else { r };
            FloatAnswer::Value(bits(r))
        }
        FloatQuery::Compare(a, b) => {
            let (x, y) = (float_of(a), float_of(b));
            let o = if x < y {
                FloatOrder::Less
            } else if x > y {
                FloatOrder::Greater
            } else if x == y {
                FloatOrder::Equal
            } else {
                FloatOrder::Unordered
            };
            FloatAnswer::Order(o)
        }
    }
}

const FUEL: usize = 200;

fn run(code: &str) -> (Result<(Token, Env), EvalError>, String) {
    let mut chars: Vec<char> = code.chars().collect();
    chars.push('\0');
    let tokens = tokenizer(String::from("test.tem"), chars, &kernel).expect("tokenizes");
    let mut out = Vec::new();
    let r = eval(tokens, Env::new(), &kernel, FUEL, &mut out);
    (r, out.into_iter().collect())
}

fn dbg(t: &Token) -> String {
    format!("{:?}", t)
}

fn id(s: &str) -> Token {
    Token::Identifier(String::from(s))
}

fn text(s: &str) -> Token {
    Token::String(String::from(s))
}

fn sym(s: Symbol) -> Token {
    Token::Symbol(s)
}

fn prnt_nothing() -> Token {
    Token::Function(String::from("prnt"), vec![])
}

#[test]
fn an_assignment_never_finishes() {
    let (r, out) = run("x = 5;");
    assert!(matches!(r, Err(EvalError::Stuck)));
    assert_eq!(out, "");
}

#[test]
fn prnt_of_a_value_never_finishes() {
    let mut vars = Env::new();
    vars.insert(String::from("x"), Token::Integer(5));
    let prnt = Token::Function(String::from("prnt"), vec![vec![id("x"), sym(Symbol::Plus), Token::Integer(1)]]);
    let mut out = Vec::new();
    let r = eval(vec![prnt], vars, &kernel, FUEL, &mut out);
    assert!(matches!(r, Err(EvalError::Stuck)));
    assert!(out.is_empty());
}

#[test]
fn prnt_without_arguments_prints_a_line_break() {
    let mut out = Vec::new();
    let r = eval(vec![prnt_nothing()], Env::new(), &kernel, FUEL, &mut out);
    let (value, _) = r.expect("runs");
    assert_eq!(dbg(&value), "Integer(0)");
    assert_eq!(out.into_iter().collect::<String>(), "\n");
}

#[test]
fn prnt_of_an_unbound_identifier_never_finishes() {
    let prnt = Token::Function(String::from("prnt"), vec![vec![id("nope")]]);
    let mut out = Vec::new();
    let r = eval(vec![prnt], Env::new(), &kernel, FUEL, &mut out);
    assert!(matches!(r, Err(EvalError::Stuck)));
    assert!(out.is_empty());
}

#[test]
fn evaluation_keeps_what_was_printed_before() {
    let mut out: Vec<char> = "before:".chars().collect();
    let r = eval(vec![prnt_nothing(), prnt_nothing()], Env::new(), &kernel, FUEL, &mut out);
    assert!(r.is_ok());
    assert_eq!(out.into_iter().collect::<String>(), "before:\n\n");
}

#[test]
fn evaluation_keeps_bound_variables() {
    let mut vars = Env::new();
    vars.insert(String::from("a"), Token::Integer(1));
    let tokens = vec![Token::Function(String::from("b"), vec![]), Token::Block(vec![Token::Integer(2)])];
    let mut out = Vec::new();
    let (_, after) = eval(tokens, vars, &kernel, FUEL, &mut out).expect("runs");
    assert_eq!(dbg(after.get(&String::from("a")).expect("kept")), "Integer(1)");
    assert_eq!(dbg(after.get(&String::from("b")).expect("bound")), "Block([Integer(2)])");
}

#[test]
fn a_lone_value_is_the_result() {
    let mut out = Vec::new();
    let (value, _) = eval(vec![text("hi")], Env::new(), &kernel, FUEL, &mut out).expect("runs");
    assert_eq!(dbg(&value), "String(\"hi\")");
}

#[test]
fn empty_program_gives_zero() {
    let mut out = Vec::new();
    let (value, _) = eval(Vec::new(), Env::new(), &kernel, FUEL, &mut out).expect("runs");
    assert_eq!(dbg(&value), "Integer(0)");
}

#[test]
fn no_fuel_is_exhausted() {
    let mut out = Vec::new();
    let r = eval(vec![Token::Integer(1)], Env::new(), &kernel, 0, &mut out);
    assert!(matches!(r, Err(EvalError::Exhausted)));
}

#[test]
fn assignment_at_the_start_is_a_fault() {
    let mut out = Vec::new();
    let r = eval(vec![sym(Symbol::Equal), Token::Integer(1)], Env::new(), &kernel, FUEL, &mut out);
    assert!(matches!(r, Err(EvalError::Fault)));
}

#[test]
fn unknown_function_is_reported() {
    let call = Token::Function(String::from("g"), vec![]);
    let mut out = Vec::new();
    let r = eval(vec![call], Env::new(), &kernel, FUEL, &mut out);
    match r {
        Err(EvalError::Reported(m)) => assert_eq!(m, "Function g not found"),
        other => panic!("unexpected {:?}", other.map(|p| dbg(&p.0))),
    }
}

#[test]
fn function_definition_and_call() {
    let def = Token::Function(String::from("f"), vec![vec![id("a")]]);
    let body = Token::Block(vec![id("a"), sym(Symbol::Plus), Token::Integer(1)]);
    let mut out = Vec::new();
    let (_, vars) = eval(vec![def, body], Env::new(), &kernel, FUEL, &mut out).expect("defines");
    assert_eq!(
        dbg(vars.get(&String::from("f")).expect("defined")),
        "Block([Identifier(\"$0\"), Symbol(Plus), Integer(1)])"
    );
    let call = Token::Function(String::from("f"), vec![vec![Token::Integer(2)]]);
    let (value, vars2) = eval(vec![call], vars, &kernel, FUEL, &mut out).expect("calls");
    assert_eq!(dbg(&value), "Block([Identifier(\"$0\"), Symbol(Plus), Integer(1)])");
    assert_eq!(dbg(vars2.get(&String::from("$0")).expect("bound")), "Block([Integer(2)])");
}

#[test]
fn definition_with_an_empty_argument_is_a_fault() {
    let def = Token::Function(String::from("f"), vec![vec![]]);
    let body = Token::Block(vec![Token::Integer(1)]);
    let mut out = Vec::new();
    let r = eval(vec![def, body], Env::new(), &kernel, FUEL, &mut out);
    assert!(matches!(r, Err(EvalError::Fault)));
}

#[test]
fn if_runs_the_block_when_true() {
    let tokens = vec![
        Token::If(vec![Token::Integer(1), sym(Symbol::Is), Token::Integer(1)]),
        Token::Block(vec![prnt_nothing()]),
    ];
    let mut out = Vec::new();
    let r = eval(tokens, Env::new(), &kernel, FUEL, &mut out);
    assert!(r.is_ok());
    assert_eq!(out.into_iter().collect::<String>(), "\n");
}

#[test]
fn a_bracketed_condition_is_a_block_and_never_true() {
    let (r, _) = run("if (1 is 1) { x = 2; }");
    let (_, vars) = r.expect("runs");
    assert!(vars.get(&String::from("x")).is_none());
}

#[test]
fn else_runs_when_false() {
    let tokens = vec![
        Token::If(vec![Token::Boolean(false)]),
        Token::Block(vec![Token::Function(String::from("missing"), vec![])]),
        Token::Else,
        Token::Block(vec![prnt_nothing()]),
    ];
    let mut out = Vec::new();
    let r = eval(tokens, Env::new(), &kernel, FUEL, &mut out);
    assert!(r.is_ok());
    assert_eq!(out.into_iter().collect::<String>(), "\n");
}

#[test]
fn repeat_runs_the_block_n_times() {
    let body = Token::Block(vec![prnt_nothing()]);
    let tokens = vec![Token::Repeat(vec![Token::Integer(3)]), body];
    let mut out = Vec::new();
    let (value, _) = eval(tokens, Env::new(), &kernel, FUEL, &mut out).expect("runs");
    assert_eq!(dbg(&value), "Integer(0)");
    assert_eq!(out.into_iter().collect::<String>(), "\n\n\n");
}

#[test]
fn repeat_with_a_count_below_one_runs_nothing() {
    let body = Token::Block(vec![prnt_nothing()]);
    let tokens = vec![Token::Repeat(vec![Token::Integer(-2)]), body];
    let mut out = Vec::new();
    let (value, _) = eval(tokens, Env::new(), &kernel, FUEL, &mut out).expect("runs");
    assert_eq!(dbg(&value), "Integer(0)");
    assert!(out.is_empty());
}

#[test]
fn repeat_hands_each_run_the_variables_of_the_last() {
    let body = Token::Block(vec![Token::Function(String::from("g"), vec![]), Token::Block(vec![Token::Integer(9)])]);
    let tokens = vec![Token::Repeat(vec![Token::Integer(2), sym(Symbol::Plus), Token::Integer(0)]), body];
    let mut out = Vec::new();
    let (value, vars) = eval(tokens, Env::new(), &kernel, FUEL, &mut out).expect("runs");
    assert_eq!(dbg(&value), "Integer(0)");
    assert_eq!(dbg(vars.get(&String::from("g")).expect("defined in the body")), "Block([Integer(9)])");
}

#[test]
fn repeat_needs_an_integer() {
    let tokens = vec![Token::Repeat(vec![text("x")]), Token::Block(vec![])];
    let mut out = Vec::new();
    match eval(tokens, Env::new(), &kernel, FUEL, &mut out) {
        Err(EvalError::Reported(m)) => assert_eq!(m, "ONLY NUMBRZ CAN G0 IN REP3T!! NO FUNNY STUFF ALLOWED!!!"),
        _ => panic!("expected the repeat error"),
    }
}

#[test]
fn a_value_where_an_operator_should_be_is_stuck() {
    let tokens = vec![Token::Block(vec![Token::Integer(1), Token::Integer(2)])];
    let mut out = Vec::new();
    let r = eval(tokens, Env::new(), &kernel, FUEL, &mut out);
    assert!(matches!(r, Err(EvalError::Stuck)));
}

#[test]
fn calc_of_a_lone_integer_is_itself() {
    for n in [0isize, 7, -42, isize::MAX, isize::MIN] {
        let mut out = Vec::new();
        let v = tem_core::interp::calc(vec![Token::Integer(n)], &kernel, FUEL, &mut out).expect("calculates");
        assert_eq!(dbg(&v), format!("Integer({})", n));
        let r = tem_core::interp::calc(vec![Token::Integer(n)], &kernel, 0, &mut out);
        assert!(matches!(r, Err(EvalError::Exhausted)));
    }
}

#[test]
fn calc_multiplies_first() {
    let mut out = Vec::new();
    let tokens = vec![Token::Integer(1), sym(Symbol::Plus), Token::Integer(2), sym(Symbol::Multiply), Token::Integer(3)];
    let v = tem_core::interp::calc(tokens, &kernel, FUEL, &mut out).expect("calculates");
    assert_eq!(dbg(&v), "Integer(7)");
}

#[test]
fn calc_compares_with_is() {
    let mut out = Vec::new();
    let v = tem_core::interp::calc(vec![Token::Integer(1), sym(Symbol::Is), Token::Integer(1)], &kernel, FUEL, &mut out).expect("ok");
    assert_eq!(dbg(&v), "Boolean(true)");
    let w = tem_core::interp::calc(vec![Token::Integer(1), sym(Symbol::Is), Token::Integer(2)], &kernel, FUEL, &mut out).expect("ok");
    assert_eq!(dbg(&w), "Boolean(false)");
}

#[test]
fn calc_compares_numbers_with_greater_and_less() {
    let mut out = Vec::new();
    let v = tem_core::interp::calc(vec![Token::Integer(2), sym(Symbol::Greater), Token::Integer(1)], &kernel, FUEL, &mut out).expect("ok");
    assert_eq!(dbg(&v), "Boolean(true)");
    let w = tem_core::interp::calc(vec![Token::Integer(2), sym(Symbol::Less), Token::Integer(1)], &kernel, FUEL, &mut out).expect("ok");
    assert_eq!(dbg(&w), "Boolean(false)");
}

#[test]
fn greater_between_words_is_reported() {
    let mut out = Vec::new();
    match tem_core::interp::calc(vec![text("a"), sym(Symbol::Greater), Token::Integer(1)], &kernel, FUEL, &mut out) {
        Err(EvalError::Reported(m)) => assert_eq!(m, "> operator can only compare integers."),
        _ => panic!("expected the comparison error"),
    }
    match tem_core::interp::calc(vec![text("a"), sym(Symbol::Less), Token::Integer(1)], &kernel, FUEL, &mut out) {
        Err(EvalError::Reported(m)) => assert_eq!(m, "< operator can only compare integers."),
        _ => panic!("expected the comparison error"),
    }
}

#[test]
fn calc_of_a_boolean_gives_its_text() {
    let mut out = Vec::new();
    let v = tem_core::interp::calc(vec![Token::Boolean(true)], &kernel, FUEL, &mut out).expect("ok");
    assert_eq!(dbg(&v), "String(\"true\")");
}

#[test]
fn calc_of_nothing_is_nothing() {
    let mut out = Vec::new();
    let v = tem_core::interp::calc(Vec::new(), &kernel, FUEL, &mut out).expect("ok");
    assert_eq!(dbg(&v), "Nothing");
}

#[test]
fn calc_with_variables_reads_them() {
    let mut vars = Env::new();
    vars.insert(String::from("x"), Token::Integer(4));
    let mut out = Vec::new();
    let v = calc_with_variables(vec![id("x"), sym(Symbol::Minus), Token::Integer(1)], &vars, &kernel, FUEL, &mut out)
        .expect("ok");
    assert_eq!(dbg(&v), "Integer(3)");
}

#[test]
fn calc_fi_divides_as_floats_and_truncates() {
    let mut out = Vec::new();
    let v = calc_fi(vec![Token::Integer(7), sym(Symbol::Divide), Token::Integer(2)], &Env::new(), &kernel, FUEL, &mut out)
        .expect("ok");
    assert_eq!(dbg(&v), "Integer(3)");
}

#[test]
fn calc_fi_keeps_floats() {
    let mut out = Vec::new();
    let v = calc_fi(vec![Token::Float(bits(1.5)), sym(Symbol::Plus), Token::Integer(1)], &Env::new(), &kernel, FUEL, &mut out)
        .expect("ok");
    match v {
        Token::Float(f) => assert_eq!(float_of(f), 2.5),
        other => panic!("unexpected {:?}", other),
    }
}

#[test]
fn calc_fi_modulo() {
    let mut out = Vec::new();
    let v = calc_fi(vec![Token::Integer(7), sym(Symbol::Mod), Token::Integer(4)], &Env::new(), &kernel, FUEL, &mut out)
        .expect("ok");
    assert_eq!(dbg(&v), "Integer(3)");
}

#[test]
fn calc_fi_gives_nothing_for_words() {
    let mut out = Vec::new();
    let v = calc_fi(vec![text("a")], &Env::new(), &kernel, FUEL, &mut out).expect("ok");
    assert_eq!(dbg(&v), "Nothing");
}

#[test]
fn calc_fi_of_nothing_is_a_fault() {
    let mut out = Vec::new();
    assert!(matches!(calc_fi(Vec::new(), &Env::new(), &kernel, FUEL, &mut out), Err(EvalError::Fault)));
}

#[test]
fn calc_fi_with_a_trailing_operator_is_a_fault() {
    let mut out = Vec::new();
    let r = calc_fi(vec![Token::Integer(7), sym(Symbol::Multiply)], &Env::new(), &kernel, FUEL, &mut out);
    assert!(matches!(r, Err(EvalError::Fault)));
}

#[test]
fn prnt_of_a_float_sum_never_finishes() {
    let (r, out) = run("prnt(1.5 + 1);");
    assert!(matches!(r, Err(EvalError::Stuck)));
    assert_eq!(out, "");
}

#[test]
fn calc_of_a_float_sum_is_a_float() {
    let mut out = Vec::new();
    let v = calc_with_variables(vec![Token::Float(bits(1.5)), sym(Symbol::Plus), Token::Integer(1)], &Env::new(), &kernel, FUEL, &mut out)
        .expect("ok");
    match v {
        Token::Float(f) => assert_eq!(float_of(f), 2.5),
        other => panic!("unexpected {:?}", other),
    }
}

#[test]
fn calc_of_a_lone_string_is_itself() {
    let mut out = Vec::new();
    let v = tem_core::interp::calc(vec![text("hello")], &kernel, FUEL, &mut out).expect("calculates");
    assert_eq!(dbg(&v), "String(\"hello\")");
    let w = tem_core::interp::calc(vec![text("12")], &kernel, FUEL, &mut out).expect("calculates");
    assert_eq!(dbg(&w), "Integer(12)");
    let b = tem_core::interp::calc(vec![text("tru")], &kernel, FUEL, &mut out).expect("calculates");
    assert_eq!(dbg(&b), "Boolean(true)");
    assert!(out.is_empty());
}

#[test]
fn a_bound_variable_reads_back() {
    let mut vars = Env::new();
    vars.insert(String::from("v"), text("w"));
    let mut out = Vec::new();
    let (value, _) = eval(vec![id("v")], vars, &kernel, FUEL, &mut out).expect("reads");
    assert_eq!(dbg(&value), "String(\"w\")");
    assert!(out.is_empty());
}

#[test]
fn more_fuel_gives_the_same_run() {
    let program = || {
        vec![
            Token::Function(String::from("f"), vec![vec![id("a")]]),
            Token::Block(vec![id("a"), sym(Symbol::Plus), Token::Integer(1)]),
            Token::Repeat(vec![Token::Integer(2)]),
            Token::Block(vec![prnt_nothing()]),
            Token::Function(String::from("f"), vec![vec![Token::Integer(2)]]),
        ]
    };
    let mut small_out = Vec::new();
    let small = eval(program(), Env::new(), &kernel, 8, &mut small_out);
    let mut big_out = Vec::new();
    let big = eval(program(), Env::new(), &kernel, 800, &mut big_out);
    let (a, _) = small.expect("finishes with little fuel");
    let (b, _) = big.expect("finishes with more fuel");
    assert_eq!(dbg(&a), dbg(&b));
    assert_eq!(small_out, big_out);
    assert_eq!(small_out.into_iter().collect::<String>(), "\n\n");
    let mut starved = Vec::new();
    let looped = vec![Token::Repeat(vec![Token::Integer(1)]), Token::Block(vec![prnt_nothing()])];
    let r = eval(looped, Env::new(), &kernel, 1, &mut starved);
    assert!(matches!(r, Err(EvalError::Exhausted)));
}
