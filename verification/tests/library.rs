use colorfully::{Colors, Property};
use tem_core::basic::{tokenizer as plain_tokenizer, BasicError};
use tem_core::calc::{calc_str, EvalError};
use tem_core::cli::Arg;
use tem_core::env::Env;
use tem_core::float::{FloatAnswer, FloatOp, FloatOrder, FloatQuery};
use tem_core::log::Logging;
use tem_core::number::{isize_text, parse_isize};
use tem_core::parser::parse;
use tem_core::token::{FakeFloat, Symbol, Token};
use tem_core::tokenizer::{remove_comma, tokenizer, TokenizeError};
use tem_core::utils::{Function, Variable};
use tem_core::value::substitute_variables;

fn float_of(f: FakeFloat) -> f64 {
    f64::from_bits(f.0)
}

fn bits(x: f64) -> FakeFloat {
    FakeFloat(x.to_bits())
}

fn kernel(q: FloatQuery) -> FloatAnswer {
    match q {
        FloatQuery::Parse(s) => FloatAnswer::Parsed(s.parse::<f64>().ok().map(|x| bits(if x.is_nan() { f64::NAN } else { x }))),
        FloatQuery::Display(f) => FloatAnswer::Text(float_of(f).to_string()),
        FloatQuery::DebugText(f) => FloatAnswer::Text(format!("{:?}", float_of(f))),
        FloatQuery::FromInteger(n) => FloatAnswer::Value(bits(n as f64)),
        FloatQuery::ToInteger(f) => FloatAnswer::Integer(float_of(f) as isize),
        FloatQuery::Arith(op, a, b) => {
            let (x, y) = (float_of(a), float_of(b));
            let r = match op {
                FloatOp::Add => x + y,
                FloatOp::Sub => x - y,
                FloatOp::Mul => x * y,
                FloatOp::Div => x / y,
                FloatOp::Rem => x % y,
            };
            // Every NaN is answered as the one canonical NaN, so that equal
            // questions always get equal answers.
            let r = if r.is_nan() { f64::NAN } else { r };
            FloatAnswer::Value(bits(r))
        }
        FloatQuery::Compare(a, b) => {
            let (x, y) = (float_of(a), float_of(b));
            let o = if x < y {
                FloatOrder::Less
            } else if x > y {
                FloatOrder::Greater
            } else if x == y {
                FloatOrder::Equal
            } else {
                FloatOrder::Unordered
            };
            FloatAnswer::Order(o)
        }
    }
}

fn dbg<T: std::fmt::Debug>(t: &T) -> String {
    format!("{:?}", t)
}

fn code(s: &str) -> Vec<char> {
    let mut v: Vec<char> = s.chars().collect();
    v.push('\0');
    v
}

fn text(s: &str) -> Token {
    Token::String(String::from(s))
}

#[test]
fn tokenizer_reads_an_assignment() {
    let t = tokenizer(String::from("m.tem"), code("x = 5;"), &kernel).expect("ok");
    assert_eq!(dbg(&t), "[Identifier(\"x\"), Symbol(Equal), Block([Integer(5)]), Symbol(Semicolon)]");
}

#[test]
fn tokenizer_reads_a_call_with_arguments() {
    let t = tokenizer(String::from("m.tem"), code("prnt(1, \"a\")"), &kernel).expect("ok");
    assert_eq!(dbg(&t), "[Function(\"prnt\", [[Integer(1)], [String(\"a\")]])]");
}

#[test]
fn tokenizer_reads_keywords_and_operators() {
    let t = tokenizer(String::from("m.tem"), code("tru falz 1 is 2 % 3 > 4 < 5"), &kernel).expect("ok");
    assert_eq!(
        dbg(&t),
        "[Boolean(true), Boolean(false), Integer(1), Symbol(Is), Integer(2), Symbol(Mod), Integer(3), Symbol(Greater), Integer(4), Symbol(Less), Integer(5)]"
    );
}

#[test]
fn tokenizer_reports_a_number_with_two_points() {
    match tokenizer(String::from("m.tem"), code("1.2.3"), &kernel) {
        Err(TokenizeError::Reported { path, message, .. }) => {
            assert_eq!(path, "m.tem");
            assert!(message.contains("1.2.3"));
        }
        other => panic!("unexpected {:?}", other),
    }
}

#[test]
fn tokenizer_reports_an_unterminated_string() {
    match tokenizer(String::from("m.tem"), code("\"abc"), &kernel) {
        Err(TokenizeError::Reported { message, .. }) => {
            assert_eq!(message, "UNT3RM!N@TED STR!NG L!TER@L: M!SS!NG CLOS!NG QU0TE!! OH NOO!!");
        }
        other => panic!("unexpected {:?}", other),
    }
}

#[test]
fn tokenizer_stops_at_the_end_marker() {
    let t = tokenizer(String::from("m.tem"), code(""), &kernel).expect("ok");
    assert!(t.is_empty());
}

#[test]
fn calc_str_repeats_and_concatenates() {
    let env = Env::new();
    let r = calc_str(vec![text("ab"), Token::Symbol(Symbol::Multiply), Token::Integer(3)], &env).expect("ok");
    assert_eq!(dbg(&r), "String(\"ababab\")");
    let r = calc_str(vec![text("ab"), Token::Symbol(Symbol::Multiply), Token::Integer(-1)], &env).expect("ok");
    assert_eq!(dbg(&r), "String(\"\")");
    let r = calc_str(vec![text("ab"), Token::Symbol(Symbol::Plus), text("cd")], &env).expect("ok");
    assert_eq!(dbg(&r), "String(\"abcd\")");
    let r = calc_str(vec![text("x")], &env).expect("ok");
    assert_eq!(dbg(&r), "String(\"x\")");
    let r = calc_str(vec![Token::Integer(1)], &env).expect("ok");
    assert_eq!(dbg(&r), "Nothing");
}

#[test]
fn calc_str_repeat_that_cannot_fit_is_a_fault() {
    let env = Env::new();
    let r = calc_str(vec![text("ab"), Token::Symbol(Symbol::Multiply), Token::Integer(isize::MAX)], &env);
    assert!(matches!(r, Err(EvalError::Fault)));
}

#[test]
fn repeat_length_is_n_times_the_length() {
    let env = Env::new();
    for n in 0..5isize {
        let r = calc_str(vec![text("xyz"), Token::Symbol(Symbol::Multiply), Token::Integer(n)], &env).expect("ok");
        match r {
            Token::String(s) => assert_eq!(s.chars().count(), 3 * n as usize),
            other => panic!("unexpected {:?}", other),
        }
    }
}

#[test]
fn env_lookup_after_binding() {
    let mut env = Env::new();
    env.insert(String::from("a"), Token::Integer(1));
    env.insert(String::from("b"), Token::Integer(2));
    env.insert(String::from("a"), Token::Integer(3));
    assert_eq!(dbg(env.get(&String::from("a")).unwrap()), "Integer(3)");
    assert_eq!(dbg(env.get(&String::from("b")).unwrap()), "Integer(2)");
    assert!(env.get(&String::from("c")).is_none());
    let mut other = Env::new();
    other.insert(String::from("b"), Token::Integer(9));
    other.insert(String::from("c"), Token::Integer(4));
    let copy = env.duplicate();
    env.extend(other);
    assert_eq!(dbg(env.get(&String::from("b")).unwrap()), "Integer(9)");
    assert_eq!(dbg(env.get(&String::from("c")).unwrap()), "Integer(4)");
    assert_eq!(dbg(copy.get(&String::from("b")).unwrap()), "Integer(2)");
}

#[test]
fn substituting_no_variables_changes_nothing() {
    let tokens = vec![
        Token::Identifier(String::from("x")),
        Token::Block(vec![Token::Identifier(String::from("y"))]),
    ];
    let same = substitute_variables(&tokens, &Env::new());
    assert_eq!(dbg(&same), dbg(&tokens));
}

#[test]
fn substituting_puts_values_in_nested_blocks() {
    let mut env = Env::new();
    env.insert(String::from("y"), Token::Integer(5));
    let tokens = vec![Token::Block(vec![Token::Identifier(String::from("y"))]), Token::Identifier(String::from("z"))];
    let r = substitute_variables(&tokens, &env);
    assert_eq!(dbg(&r), "[Block([Integer(5)]), Identifier(\"z\")]");
}

#[test]
fn integer_text_parses_back() {
    for n in [0isize, 1, -1, 10, 12345, -987, isize::MAX, isize::MIN] {
        let t = isize_text(n);
        assert_eq!(t.iter().collect::<String>(), n.to_string());
        assert_eq!(parse_isize(&t), Some(n));
    }
}

#[test]
fn parse_isize_rejects_what_rust_rejects() {
    for s in ["", "-", "+", "1a", " 1", "99999999999999999999999"] {
        let v: Vec<char> = s.chars().collect();
        assert_eq!(parse_isize(&v), s.parse::<isize>().ok(), "{}", s);
    }
    let v: Vec<char> = "+7".chars().collect();
    assert_eq!(parse_isize(&v), Some(7));
}

#[test]
fn class_of_an_integer_formats_and_adds() {
    let class = Token::Integer(5).change2class(&kernel);
    assert_eq!(class.name, "Integer");
    let mut out = Vec::new();
    let v = class.run_method(String::from("!!format!!"), Env::new(), &kernel, 10, &mut out).expect("formats");
    assert_eq!(dbg(&v), "String(\"5\")");
    assert!(matches!(class.display(&kernel, 10, &mut out), Err(EvalError::Stuck)));
    assert!(matches!(class.display(&kernel, 0, &mut out), Err(EvalError::Exhausted)));
    let mut args = Env::new();
    args.insert(String::from("rhs"), Token::Integer(2));
    let v = class.run_method(String::from("!!add!!"), args, &kernel, 10, &mut out).expect("adds");
    assert_eq!(dbg(&v), "Integer(7)");
    let none = class.run_method(String::from("!!mod!!"), Env::new(), &kernel, 10, &mut out).expect("no method");
    assert_eq!(dbg(&none), "Nothing");
}

#[test]
fn class_fields_and_methods_can_be_added() {
    let mut class = Token::Nothing.change2class(&kernel);
    assert_eq!(class.name, "");
    class.add_field(String::from("f"), Token::Integer(1));
    assert_eq!(dbg(class.get_field(String::from("f")).unwrap()), "Integer(1)");
    class.add_method(String::from("m"), text("hi"));
    let mut out = Vec::new();
    let v = class.run_method(String::from("m"), Env::new(), &kernel, 10, &mut out).expect("runs");
    assert_eq!(dbg(&v), "String(\"hi\")");
}

#[test]
fn parse_gives_the_first_value() {
    let mut out = Vec::new();
    let v = parse(vec![Token::Symbol(Symbol::Plus), Token::Boolean(true), Token::Integer(1)], &kernel, &mut out);
    assert_eq!(dbg(&v), "Boolean(true)");
    assert!(out.is_empty());
    let w = parse(Vec::new(), &kernel, &mut out);
    assert_eq!(dbg(&w), "Integer(0)");
}

#[test]
fn parse_prints_prnt_arguments_in_debug_form() {
    let call = Token::Function(String::from("prnt"), vec![vec![text("a\"b")], vec![Token::Float(bits(1.0))]]);
    let mut out = Vec::new();
    let v = parse(vec![call, Token::Integer(4)], &kernel, &mut out);
    assert_eq!(dbg(&v), "Integer(4)");
    assert_eq!(out.into_iter().collect::<String>(), "String(\"a\\\"b\")\nFloat(FakeFloat(1.0))\n");
}

#[test]
fn function_list_lookups() {
    let mut fs = Function::new();
    let call = Token::Function(String::from("f"), vec![vec![], vec![]]);
    assert!(!fs.get(Token::Function(String::from("f"), vec![])));
    fs.add(Token::Integer(1));
    fs.add(Token::Function(String::from("g"), vec![vec![], vec![]]));
    assert!(fs.get(Token::Function(String::from("zzz"), vec![])));
    assert!(!fs.get(Token::Integer(1)));
    assert!(fs.can_use(call));
    assert!(!fs.can_use(Token::Function(String::from("f"), vec![])));
}

#[test]
fn variable_map_binds_tokens() {
    let mut vs = Variable::new();
    vs.add(Token::Identifier(String::from("a")), Token::Integer(1), &kernel);
    vs.add(Token::Identifier(String::from("a")), Token::Integer(2), &kernel);
    assert_eq!(dbg(vs.get(Token::Identifier(String::from("a")), &kernel).unwrap()), "Integer(2)");
    assert!(vs.can_use(Token::Identifier(String::from("a")), &kernel));
    assert!(!vs.can_use(Token::Identifier(String::from("b")), &kernel));
    vs.add(Token::Float(bits(f64::NAN)), Token::Integer(3), &kernel);
    assert!(!vs.can_use(Token::Float(bits(f64::NAN)), &kernel));
    vs.add(Token::Float(bits(1.5)), Token::Integer(4), &kernel);
    assert!(vs.can_use(Token::Float(bits(1.5)), &kernel));
    assert_eq!(dbg(vs.get(Token::Float(bits(1.5)), &kernel).unwrap()), "Integer(4)");
    assert_eq!(dbg(vs.get(Token::Identifier(String::from("a")), &kernel).unwrap()), "Integer(2)");
}

#[test]
fn plain_tokenizer_reads_numbers_words_and_operators() {
    let t = plain_tokenizer(code("x = 12 + 3.5"), &kernel).expect("ok");
    assert_eq!(
        dbg(&t),
        format!(
            "[Identifier(\"x\"), Symbol(Equal), Integer(12), Symbol(Plus), Float(FakeFloat({}))]",
            3.5f64.to_bits()
        )
    );
    let t = plain_tokenizer(code("\"hi\" false x"), &kernel).expect("ok");
    assert_eq!(dbg(&t), "[String(\"hi\"), Boolean(false), Identifier(\" x\")]");
}

#[test]
fn plain_tokenizer_faults_and_stalls() {
    assert!(matches!(plain_tokenizer(code("1.2.3"), &kernel), Err(BasicError::Fault)));
    assert!(matches!(plain_tokenizer(code("(x"), &kernel), Err(BasicError::Stuck)));
    assert!(matches!(plain_tokenizer(vec!['1'], &kernel), Err(BasicError::Fault)));
    assert!(matches!(plain_tokenizer(code("true"), &kernel), Err(BasicError::Fault)));
    assert!(matches!(plain_tokenizer(code("\"hi\" false"), &kernel), Err(BasicError::Fault)));
}

#[test]
fn error_line_matches_colorfully() {
    let log = Logging::new(String::from("RUNTIME"));
    let line = log.error((0, 0), String::from("boom"));
    let expected = format!("[{} {}] {}", "ERROR".bold().red(), format!("{}:{}:{}", "RUNTIME", 0, 0).gray(), "boom");
    assert_eq!(line, expected);
    assert_ne!(line, "[ERROR RUNTIME:0:0] boom");
}

#[test]
fn command_line_holds_the_path() {
    let a = Arg::new(String::from("test/main.tem"));
    assert_eq!(a.path, "test/main.tem");
}

#[test]
fn remove_comma_splits_and_joins_back() {
    let log = Logging::new(String::from("m.tem"));
    let tokens = vec![
        Token::Integer(1),
        Token::Symbol(Symbol::Comma),
        Token::Integer(2),
        Token::Symbol(Symbol::Plus),
        Token::Integer(3),
    ];
    let before = dbg(&tokens);
    let lists = remove_comma(tokens, 1, 5, 2, &log).expect("splits");
    assert_eq!(dbg(&lists), "[[Integer(1)], [Integer(2), Symbol(Plus), Integer(3)]]");
    assert_eq!(lists.len(), 2);
    assert!(lists.iter().all(|l| l.iter().all(|t| !matches!(t, Token::Symbol(Symbol::Comma)))));
    let mut joined = Vec::new();
    for (n, list) in lists.into_iter().enumerate() {
        if n > 0 {
            joined.push(Token::Symbol(Symbol::Comma));
        }
        joined.extend(list);
    }
    assert_eq!(dbg(&joined), before);
}

#[test]
fn remove_comma_after_the_last_argument_leaves_an_empty_list() {
    let log = Logging::new(String::from("m.tem"));
    let tokens = vec![Token::Integer(1), Token::Symbol(Symbol::Comma)];
    let lists = remove_comma(tokens, 1, 5, 2, &log).expect("splits");
    assert_eq!(dbg(&lists), "[[Integer(1)], []]");
}

#[test]
fn remove_comma_splits_at_any_positions() {
    let log = Logging::new(String::from("m.tem"));
    let tokens = vec![Token::Integer(1), Token::Symbol(Symbol::Comma), Token::Integer(2)];
    let lists = remove_comma(tokens, 3, 1, 7, &log).expect("splits");
    assert_eq!(dbg(&lists), "[[Integer(1)], [Integer(2)]]");
}

#[test]
fn remove_comma_reports_an_empty_argument() {
    let log = Logging::new(String::from("m.tem"));
    let tokens = vec![Token::Integer(1), Token::Symbol(Symbol::Comma), Token::Symbol(Symbol::Comma)];
    match remove_comma(tokens, 4, 10, 3, &log) {
        Err(TokenizeError::Reported { path, line, column, message }) => {
            assert_eq!(path, "m.tem");
            assert_eq!(line, 4);
            assert_eq!(column, 8);
            assert_eq!(message, "INVAL!D C0MMA: UNEXPEKTED C0MMA!! H0W DID DIS HAPPEN??");
        }
        other => panic!("unexpected {:?}", other),
    }
}
