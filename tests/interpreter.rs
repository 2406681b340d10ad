use tale::{
    apply_primitive, default_environment, eval, parse, parse_atom, parse_eval,
    parse_list_of_floats, parse_list_of_symbol_strings, parse_single_float, read_seq, tokenize,
    Environment, Error, Expression, Lambda, Primitive,
};

fn toks(words: &[&str]) -> Vec<String> {
    words.iter().map(|w| w.to_string()).collect()
}

fn run(env: &mut Environment, text: &str) -> Result<Expression, Error> {
    parse_eval(text.to_string(), env)
}

fn generic_message(r: Result<Expression, Error>) -> String {
    match r {
        Err(Error::Generic(m)) => m,
        Err(e) => panic!("unexpected error {:?}", e),
        Ok(v) => panic!("unexpected value {:?}", v),
    }
}

fn sym(s: &str) -> Expression {
    Expression::Symbol(s.to_string())
}

#[test]
fn tokenize_splits_parens_and_whitespace() {
    assert_eq!(tokenize("(+ 1 2)".to_string()), toks(&["(", "+", "1", "2", ")"]));
    assert_eq!(
        tokenize("  (def\tx\n(fn (a) a))".to_string()),
        toks(&["(", "def", "x", "(", "fn", "(", "a", ")", "a", ")", ")"])
    );
    assert_eq!(tokenize("abc)def".to_string()), toks(&["abc", ")", "def"]));
}

#[test]
fn tokenize_empty_and_blank() {
    assert!(tokenize("".to_string()).is_empty());
    assert!(tokenize(" \t\n ".to_string()).is_empty());
    assert_eq!(tokenize("a\u{3000}b".to_string()), toks(&["a", "b"]));
}

#[test]
fn parse_atoms() {
    assert_eq!(parse_atom(&"true".to_string()), Expression::Boolean(true));
    assert_eq!(parse_atom(&"false".to_string()), Expression::Boolean(false));
    assert_eq!(parse_atom(&"42".to_string()), Expression::Number(42));
    assert_eq!(parse_atom(&"-7".to_string()), Expression::Number(-7));
    assert_eq!(parse_atom(&"+7".to_string()), Expression::Number(7));
    assert_eq!(
        parse_atom(&"-9223372036854775808".to_string()),
        Expression::Number(i64::MIN)
    );
    assert_eq!(parse_atom(&"9223372036854775808".to_string()), sym("9223372036854775808"));
    assert_eq!(parse_atom(&"x1".to_string()), sym("x1"));
    assert_eq!(parse_atom(&"-".to_string()), sym("-"));
    assert_eq!(parse_atom(&"True".to_string()), sym("True"));
}

#[test]
fn parse_nested_list_and_remainder() {
    let tokens = tokenize("(+ 1 (- 3 2)) extra".to_string());
    let (e, rest) = parse(&tokens).unwrap();
    assert_eq!(
        e,
        Expression::List(vec![
            sym("+"),
            Expression::Number(1),
            Expression::List(vec![sym("-"), Expression::Number(3), Expression::Number(2)]),
        ])
    );
    assert_eq!(rest, &toks(&["extra"])[..]);
}

#[test]
fn parse_errors() {
    let empty: Vec<String> = vec![];
    assert!(matches!(parse(&empty), Err(Error::Generic(m)) if m == "Could not get token from expression"));
    assert!(matches!(parse(&toks(&[")"])), Err(Error::Generic(m)) if m == "Unexpected `)`"));
    assert!(matches!(parse(&toks(&["(", "a"])), Err(Error::Generic(m)) if m == "Could not find closing `)`"));
}

#[test]
fn read_seq_reads_up_to_close() {
    let tokens = toks(&["a", "b", ")", "c"]);
    let (e, rest) = read_seq(&tokens).unwrap();
    assert_eq!(e, Expression::List(vec![sym("a"), sym("b")]));
    assert_eq!(rest, &toks(&["c"])[..]);
}

#[test]
fn printing() {
    let tokens = tokenize("(+ 1 (f true) -3)".to_string());
    let (e, _) = parse(&tokens).unwrap();
    assert_eq!(e.to_text(), "(+,1,(f,true),-3)");
    assert_eq!(Expression::Function(Primitive::Add).to_text(), "Function {}");
    let l = Expression::Lambda(Lambda {
        params: Box::new(Expression::List(vec![])),
        body: Box::new(Expression::Number(1)),
    });
    assert_eq!(l.to_text(), "Lambda {}");
    assert_eq!(Expression::List(vec![]).to_text(), "()");
}

#[test]
fn error_messages() {
    assert_eq!(Error::Generic("boom".to_string()).message(), "boom");
    assert_eq!(Error::UnbalancedParens(2).message(), "Unbalanced parens, need {} more");
    assert_eq!(Error::SyntaxError(1, 2).message(), "Syntax error at line {}, column {}");
}

#[test]
fn literals_evaluate_to_themselves() {
    let mut env = default_environment();
    assert_eq!(eval(&Expression::Number(5), &mut env).unwrap(), Expression::Number(5));
    assert_eq!(eval(&Expression::Boolean(false), &mut env).unwrap(), Expression::Boolean(false));
    run(&mut env, "(def x 9)").unwrap();
    assert_eq!(eval(&Expression::Number(5), &mut env).unwrap(), Expression::Number(5));
}

#[test]
fn def_then_lookup() {
    let mut env = default_environment();
    assert_eq!(run(&mut env, "(def x (+ 1 2))").unwrap(), sym("x"));
    assert_eq!(run(&mut env, "x").unwrap(), Expression::Number(3));
    run(&mut env, "(def x 10)").unwrap();
    assert_eq!(run(&mut env, "x").unwrap(), Expression::Number(10));
}

#[test]
fn if_branches() {
    let mut env = default_environment();
    assert_eq!(run(&mut env, "(if true 1 2)").unwrap(), Expression::Number(1));
    assert_eq!(run(&mut env, "(if false 1 2)").unwrap(), Expression::Number(2));
    assert_eq!(
        generic_message(run(&mut env, "(if 1 1 2)")),
        "unexpected test form='1'"
    );
    assert_eq!(generic_message(run(&mut env, "(if false 1)")), "expected then and else forms");
    assert_eq!(generic_message(run(&mut env, "(if true 1)")), "expected then and else forms");
    assert_eq!(generic_message(run(&mut env, "(if true 1 2 3)")), "if can only have three forms ");
    assert_eq!(generic_message(run(&mut env, "(if)")), "expected test form");
}

#[test]
fn if_evaluates_only_the_taken_branch() {
    let mut env = default_environment();
    assert_eq!(run(&mut env, "(if true 1 undefined)").unwrap(), Expression::Number(1));
    // A malformed `if` evaluates nothing, not even its test.
    assert!(run(&mut env, "(if (def c 1) 2)").is_err());
    assert!(run(&mut env, "c").is_err());
    run(&mut env, "(if false (def a 1) (def b 2))").unwrap();
    assert!(run(&mut env, "a").is_err());
    assert_eq!(run(&mut env, "b").unwrap(), Expression::Number(2));
}

#[test]
fn closure_application_and_arity() {
    let mut env = default_environment();
    assert_eq!(run(&mut env, "((fn (x) (+ x 1)) 5)").unwrap(), Expression::Number(6));
    assert_eq!(
        generic_message(run(&mut env, "((fn (x) (+ x 1)))")),
        "expected 1 arguments, got 0"
    );
    assert_eq!(
        generic_message(run(&mut env, "((fn (x) (+ x 1)) 1 2)")),
        "expected 1 arguments, got 2"
    );
}

#[test]
fn arity_error_names_both_counts() {
    let mut env = default_environment();
    run(&mut env, "(def f (fn (a b c) a))").unwrap();
    assert_eq!(generic_message(run(&mut env, "(f 1)")), "expected 3 arguments, got 1");
    assert_eq!(generic_message(run(&mut env, "(f 1 2 3 4 5 6 7 8 9 10 11)")), "expected 3 arguments, got 11");
    assert_eq!(run(&mut env, "(f 1 2 3)").unwrap(), Expression::Number(1));
}

#[test]
fn comparisons_on_increasing_sequence() {
    let mut env = default_environment();
    assert_eq!(run(&mut env, "(< 1 2 3)").unwrap(), Expression::Boolean(true));
    assert_eq!(run(&mut env, "(> 1 2 3)").unwrap(), Expression::Boolean(false));
    assert_eq!(run(&mut env, "(<= 1 1 3)").unwrap(), Expression::Boolean(true));
    assert_eq!(run(&mut env, "(>= 3 3 1)").unwrap(), Expression::Boolean(true));
    assert_eq!(run(&mut env, "(= 2 2 2)").unwrap(), Expression::Boolean(true));
    assert_eq!(run(&mut env, "(= 2 2 3)").unwrap(), Expression::Boolean(false));
    assert_eq!(run(&mut env, "(< 7)").unwrap(), Expression::Boolean(true));
    assert_eq!(generic_message(run(&mut env, "(<)")), "Expected at least one number");
}

#[test]
fn arithmetic() {
    let mut env = default_environment();
    assert_eq!(run(&mut env, "(+)").unwrap(), Expression::Number(0));
    assert_eq!(run(&mut env, "(+ 1 2 3 4)").unwrap(), Expression::Number(10));
    assert_eq!(run(&mut env, "(- 10 1 2)").unwrap(), Expression::Number(7));
    assert_eq!(run(&mut env, "(- 4)").unwrap(), Expression::Number(4));
    assert_eq!(generic_message(run(&mut env, "(-)")), "expected at least one number");
    assert_eq!(generic_message(run(&mut env, "(+ 1 true)")), "expected a number");
    assert_eq!(
        generic_message(run(&mut env, "(+ 9223372036854775807 1)")),
        "number out of range"
    );
    assert_eq!(
        run(&mut env, "(+ 9223372036854775807 1 -1)").unwrap(),
        Expression::Number(i64::MAX)
    );
}

#[test]
fn primitives_directly() {
    let args = vec![Expression::Number(5), Expression::Number(3)];
    assert_eq!(apply_primitive(Primitive::Sub, &args).unwrap(), Expression::Number(2));
    assert_eq!(apply_primitive(Primitive::Greater, &args).unwrap(), Expression::Boolean(true));
    assert_eq!(parse_list_of_floats(&args).unwrap(), vec![5, 3]);
    assert!(parse_list_of_floats(&[sym("a")]).is_err());
    assert_eq!(parse_single_float(&Expression::Number(8)).unwrap(), 8);
    assert!(matches!(parse_single_float(&sym("z")), Err(Error::Generic(m)) if m == "expected a number"));
}

#[test]
fn parameter_lists() {
    let ok = Expression::List(vec![sym("a"), sym("b")]);
    assert_eq!(parse_list_of_symbol_strings(&ok).unwrap(), vec!["a".to_string(), "b".to_string()]);
    let bad = Expression::List(vec![sym("a"), Expression::Number(1)]);
    assert!(matches!(parse_list_of_symbol_strings(&bad), Err(Error::Generic(m)) if m == "expected symbols in the argument list"));
    assert!(matches!(parse_list_of_symbol_strings(&sym("a")), Err(Error::Generic(m)) if m == "expected args form to be a list"));
}

#[test]
fn undefined_symbol_message_holds_name() {
    let mut env = default_environment();
    let m = generic_message(run(&mut env, "no-such-name"));
    assert!(m.contains("no-such-name"));
    assert_eq!(m, "Unexpected symbol 'no-such-name'");
}

#[test]
fn closures_see_callers_scope_not_definition_scope() {
    let mut env = default_environment();
    run(&mut env, "(def y 100)").unwrap();
    run(&mut env, "(def show-y (fn () y))").unwrap();
    assert_eq!(run(&mut env, "(show-y)").unwrap(), Expression::Number(100));
    // The caller's parameter `y` shadows the root binding during the call.
    run(&mut env, "(def call-with-y (fn (y) (show-y)))").unwrap();
    assert_eq!(run(&mut env, "(call-with-y 7)").unwrap(), Expression::Number(7));
    // A closure made inside another call loses that call's parameters.
    run(&mut env, "(def make (fn (z) (fn () z)))").unwrap();
    run(&mut env, "(def g (make 5))").unwrap();
    assert_eq!(generic_message(run(&mut env, "(g)")), "Unexpected symbol 'z'");
}

#[test]
fn def_inside_call_stays_in_call_frame() {
    let mut env = default_environment();
    run(&mut env, "(def f (fn (a) (def inner a)))").unwrap();
    assert_eq!(run(&mut env, "(f 3)").unwrap(), sym("inner"));
    assert!(run(&mut env, "inner").is_err());
}

#[test]
fn special_form_errors() {
    let mut env = default_environment();
    assert_eq!(generic_message(run(&mut env, "()")), "expected a non-empty list");
    assert_eq!(generic_message(run(&mut env, "(def)")), "expected first form");
    assert_eq!(generic_message(run(&mut env, "(def 1 2)")), "expected first form to be a symbol");
    assert_eq!(generic_message(run(&mut env, "(def x)")), "expected second form");
    assert_eq!(generic_message(run(&mut env, "(def x 1 2)")), "def can only have two forms ");
    assert_eq!(generic_message(run(&mut env, "(fn)")), "expected args form");
    assert_eq!(generic_message(run(&mut env, "(fn (x))")), "expected second form");
    assert_eq!(generic_message(run(&mut env, "(fn (x) x x)")), "fn definition can only have two forms ");
    assert_eq!(generic_message(run(&mut env, "(1 2)")), "first form must be a function");
    assert_eq!(generic_message(run(&mut env, "((fn 1 1))")), "expected args form to be a list");
    assert_eq!(generic_message(run(&mut env, "((fn (1) 1) 2)")), "expected symbols in the argument list");
    assert_eq!(generic_message(eval(&Expression::Function(Primitive::Add), &mut env)), "unexpected form");
    assert_eq!(generic_message(run(&mut env, ")")), "Unexpected `)`");
}

#[test]
fn recursion_works_and_is_bounded() {
    let mut env = default_environment();
    run(&mut env, "(def sum (fn (n) (if (= n 0) 0 (+ n (sum (- n 1))))))").unwrap();
    assert_eq!(run(&mut env, "(sum 10)").unwrap(), Expression::Number(55));
    run(&mut env, "(def loop (fn () (loop)))").unwrap();
    assert_eq!(generic_message(run(&mut env, "(loop)")), "evaluation nested too deeply");
}

#[test]
fn round_trip_with_space_separator() {
    let tokens = tokenize("(a (1 -2) (true b))".to_string());
    let (e, _) = parse(&tokens).unwrap();
    let spaced = e.to_text().replace(",", " ");
    let (again, rest) = parse(&tokenize(spaced)).map(|(x, r)| (x, r.len())).unwrap();
    assert_eq!(again, e);
    assert_eq!(rest, 0);
}
