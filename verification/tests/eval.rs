use nusa::ast::{BinaryOp, Expr, Program, Stmt};
use nusa::eval::{eval, EvalError, MAX_CALL_DEPTH};
use nusa::lexer::tokenize;
use nusa::parser::parse;

fn number_of(text: &str) -> Option<u64> {
    text.parse::<f64>().ok().map(f64::to_bits)
}

fn arith(op: BinaryOp, a: u64, b: u64) -> u64 {
    let (a, b) = (f64::from_bits(a), f64::from_bits(b));
    let r = match op {
        BinaryOp::Add => a + b,
        BinaryOp::Sub => a - b,
        BinaryOp::Mul => a * b,
        BinaryOp::Div => a / b,
    };
    r.to_bits()
}

fn show(n: u64) -> String {
    format!("{}", f64::from_bits(n))
}

fn run(source: &str) -> (Vec<String>, Result<(), EvalError>) {
    let tokens = tokenize(source, &number_of).expect("the source has tokens");
    let program = parse(&tokens).expect("the tokens spell a program");
    let mut out = Vec::new();
    let r = eval(&program, &arith, &show, &mut out);
    (out, r)
}

fn prints(source: &str) -> Vec<String> {
    let (out, r) = run(source);
    assert_eq!(r, Ok(()));
    out
}

fn lines(expected: &[&str]) -> Vec<String> {
    expected.iter().map(|line| line.to_string()).collect()
}

fn runtime(message: &str) -> Result<(), EvalError> {
    Err(EvalError::Runtime(message.to_string()))
}

#[test]
fn multiplication_binds_tighter_than_addition() {
    assert_eq!(prints("let x = 1 + 2 * 3 print x"), lines(&["7"]));
    assert_eq!(prints("let x = (1 + 2) * 3 print x"), lines(&["9"]));
}

#[test]
fn strings_concatenate() {
    assert_eq!(prints("print 'a' + 'b'"), lines(&["ab"]));
    assert_eq!(prints("print 'a' + \"b\" + 'c'"), lines(&["abc"]));
    assert_eq!(prints("print '' + ''"), lines(&[""]));
}

#[test]
fn other_operators_on_strings_are_runtime_errors() {
    assert_eq!(run("print 'a' - 'b'"), (vec![], runtime("Invalid operation for strings")));
    assert_eq!(run("print 'a' * 'b'"), (vec![], runtime("Invalid operation for strings")));
    assert_eq!(run("print 'a' / 'b'"), (vec![], runtime("Invalid operation for strings")));
}

#[test]
fn argument_mismatch_fails_before_the_body_runs() {
    assert_eq!(
        run("func f(a) { print a } f(1, 2)"),
        (vec![], Err(EvalError::ArgumentMismatch))
    );
    assert_eq!(run("func f(a) { print a } f()"), (vec![], Err(EvalError::ArgumentMismatch)));
    assert_eq!(run("func f() { print 1 } f(1)"), (vec![], Err(EvalError::ArgumentMismatch)));
}

#[test]
fn argument_mismatch_fails_before_any_argument_is_evaluated() {
    assert_eq!(
        run("func g() { print 'g' } func f(a) { } f(g(), y)"),
        (vec![], Err(EvalError::ArgumentMismatch))
    );
}

#[test]
fn callee_rebinding_does_not_leak() {
    assert_eq!(prints("let x = 1 func f() { let x = 2 } f() print x"), lines(&["1"]));
    assert_eq!(prints("let x = 1 func f() { let x = 2 print x } f() print x"), lines(&["2", "1"]));
}

#[test]
fn callee_bindings_do_not_leak() {
    assert_eq!(
        run("func f() { let fresh = 2 } f() print fresh"),
        (vec![], Err(EvalError::UndefinedVar("fresh".to_string())))
    );
    assert_eq!(
        run("func outer() { func inner() { print 1 } inner() } outer() inner()"),
        (lines(&["1"]), Err(EvalError::UndefinedFunc("inner".to_string())))
    );
}

#[test]
fn call_value_is_zero() {
    assert_eq!(prints("func f() { print 5 } let r = f() print r"), lines(&["5", "0"]));
    assert_eq!(prints("func f() { } print f()"), lines(&["0"]));
    assert_eq!(prints("func f(a) { let r = a * 2 } print f(21) + 1"), lines(&["1"]));
}

#[test]
fn unbound_identifier_fails_and_halts() {
    assert_eq!(run("print y"), (vec![], Err(EvalError::UndefinedVar("y".to_string()))));
    assert_eq!(
        run("print 1 print y print 2"),
        (lines(&["1"]), Err(EvalError::UndefinedVar("y".to_string())))
    );
    assert_eq!(run("let a = 1 + y"), (vec![], Err(EvalError::UndefinedVar("y".to_string()))));
    assert_eq!(
        run("func f(a) { } f(1 + y) print 1"),
        (vec![], Err(EvalError::UndefinedVar("y".to_string())))
    );
    assert_eq!(
        run("func f() { print 'in' print y print 'never' } f() print 'after'"),
        (lines(&["in"]), Err(EvalError::UndefinedVar("y".to_string())))
    );
}

#[test]
fn empty_program_prints_nothing() {
    let mut out = vec!["kept".to_string()];
    let r = eval(&Program { statements: vec![] }, &arith, &show, &mut out);
    assert_eq!(r, Ok(()));
    assert_eq!(out, lines(&["kept"]));
}

#[test]
fn eval_appends_to_the_sink() {
    let tokens = tokenize("print 1 print 'two' print y", &number_of).unwrap();
    let program = parse(&tokens).unwrap();
    let mut out = vec!["before".to_string()];
    let r = eval(&program, &arith, &show, &mut out);
    assert_eq!(r, Err(EvalError::UndefinedVar("y".to_string())));
    assert_eq!(out, lines(&["before", "1", "two"]));
}

#[test]
fn arithmetic_on_numbers() {
    assert_eq!(prints("print 1 + 2"), lines(&["3"]));
    assert_eq!(prints("print 1 - 2"), lines(&["-1"]));
    assert_eq!(prints("print 3 * 4"), lines(&["12"]));
    assert_eq!(prints("print 10 / 4"), lines(&["2.5"]));
    assert_eq!(prints("print 0.5 + 0.25"), lines(&["0.75"]));
    assert_eq!(prints("print 1 - 2 - 3"), lines(&["-4"]));
    assert_eq!(prints("print 8 / 2 / 2"), lines(&["2"]));
    assert_eq!(prints("print 2 * 3 + 1"), lines(&["7"]));
}

#[test]
fn division_by_zero_is_no_error() {
    assert_eq!(prints("print 1 / 0"), lines(&["inf"]));
    assert_eq!(prints("print 0 - 1 / 0"), lines(&["-inf"]));
    assert_eq!(prints("print 0 / 0"), lines(&["NaN"]));
}

#[test]
fn numbers_print_in_decimal_form() {
    assert_eq!(prints("print 7"), lines(&["7"]));
    assert_eq!(prints("print 7.0"), lines(&["7"]));
    assert_eq!(prints("print 3.25"), lines(&["3.25"]));
    assert_eq!(prints("print 0.1 + 0.2"), lines(&["0.30000000000000004"]));
    assert_eq!(prints("print 1000000 * 1000000"), lines(&["1000000000000"]));
}

#[test]
fn strings_print_verbatim() {
    assert_eq!(prints("print 'a b'"), lines(&["a b"]));
    assert_eq!(prints(r"print 'a\nb'"), lines(&["a\nb"]));
    assert_eq!(prints("print ''"), lines(&[""]));
}

#[test]
fn functions_print_as_placeholder() {
    assert_eq!(prints("func f() { } print f"), lines(&["<function>"]));
}

#[test]
fn mixed_operands_are_runtime_errors() {
    assert_eq!(run("print 1 + 'a'"), (vec![], runtime("Expected numbers")));
    assert_eq!(run("print 'a' + 1"), (vec![], runtime("Expected numbers")));
    assert_eq!(run("func f() { } print f + 1"), (vec![], runtime("Expected numbers")));
    assert_eq!(run("func f() { } print f + f"), (vec![], runtime("Expected numbers")));
    assert_eq!(run("func f() { } print 'a' - f"), (vec![], runtime("Expected numbers")));
}

#[test]
fn left_operand_is_evaluated_before_the_right() {
    assert_eq!(
        prints("func l() { print 'left' } func r() { print 'right' } print l() + r()"),
        lines(&["left", "right", "0"])
    );
    assert_eq!(
        run("func r() { print 'right' } print y + r()"),
        (vec![], Err(EvalError::UndefinedVar("y".to_string())))
    );
    assert_eq!(
        run("func l() { print 'left' } print l() + y"),
        (lines(&["left"]), Err(EvalError::UndefinedVar("y".to_string())))
    );
}

#[test]
fn both_operands_are_evaluated_before_the_operator_is_applied() {
    assert_eq!(
        run("func r() { print 'right' } print 'a' - r()"),
        (lines(&["right"]), runtime("Expected numbers"))
    );
}

#[test]
fn undefined_function() {
    assert_eq!(run("f()"), (vec![], Err(EvalError::UndefinedFunc("f".to_string()))));
    assert_eq!(
        run("print 1 g(y)"),
        (lines(&["1"]), Err(EvalError::UndefinedFunc("g".to_string())))
    );
}

#[test]
fn calling_a_value_that_is_no_function() {
    assert_eq!(run("let f = 1 f()"), (vec![], runtime("Cannot call non-function")));
    assert_eq!(run("let f = 'a' f(1, 2)"), (vec![], runtime("Cannot call non-function")));
}

#[test]
fn arguments_are_bound_to_parameters_in_order() {
    assert_eq!(
        prints("func f(a, b) { print a print b } f(1, 2)"),
        lines(&["1", "2"])
    );
    assert_eq!(
        prints("func f(a, b) { print a - b } let x = 10 f(x, x / 2)"),
        lines(&["5"])
    );
}

#[test]
fn arguments_are_evaluated_from_left_to_right() {
    assert_eq!(
        prints("func a() { print 'a' } func b() { print 'b' } func f(x, y) { print 'f' } f(a(), b())"),
        lines(&["a", "b", "f"])
    );
    assert_eq!(
        run("func a() { print 'a' } func f(x, y) { print 'f' } f(a(), y)"),
        (lines(&["a"]), Err(EvalError::UndefinedVar("y".to_string())))
    );
}

#[test]
fn arguments_are_evaluated_in_the_environment_of_the_caller() {
    assert_eq!(prints("let a = 1 func f(a, b) { print b } f(2, a)"), lines(&["1"]));
}

#[test]
fn later_parameter_of_the_same_name_wins() {
    assert_eq!(prints("func f(a, a) { print a } f(1, 2)"), lines(&["2"]));
}

#[test]
fn parameter_shadows_the_binding_of_the_caller() {
    assert_eq!(prints("let a = 1 func f(a) { print a } f(2) print a"), lines(&["2", "1"]));
}

#[test]
fn callee_sees_the_bindings_of_the_caller_at_call_time() {
    assert_eq!(prints("let g = 5 func f() { print g } f()"), lines(&["5"]));
    assert_eq!(prints("func f() { print g } let g = 7 f()"), lines(&["7"]));
    assert_eq!(prints("func f() { print g } let g = 7 f() let g = 8 f()"), lines(&["7", "8"]));
    assert_eq!(
        run("func f() { print g } f() let g = 7"),
        (vec![], Err(EvalError::UndefinedVar("g".to_string())))
    );
}

#[test]
fn functions_call_functions_defined_before_the_call() {
    assert_eq!(prints("func a() { b() } func b() { print 1 } a()"), lines(&["1"]));
}

#[test]
fn variables_and_functions_share_one_namespace() {
    assert_eq!(prints("func x() { } let x = 3 print x"), lines(&["3"]));
    assert_eq!(prints("let f = 1 func f() { print 2 } f()"), lines(&["2"]));
    assert_eq!(run("func x() { } let x = 3 x()"), (vec![], runtime("Cannot call non-function")));
}

#[test]
fn let_rebinds() {
    assert_eq!(prints("let x = 1 let x = x + 1 print x"), lines(&["2"]));
    assert_eq!(prints("let x = 1 let x = 'a' print x"), lines(&["a"]));
}

#[test]
fn function_redefinition_replaces() {
    assert_eq!(prints("func f() { print 1 } func f() { print 2 } f()"), lines(&["2"]));
}

#[test]
fn function_values_are_passed_and_called() {
    assert_eq!(prints("func g() { print 'g' } func f(h) { h() } f(g)"), lines(&["g"]));
    assert_eq!(prints("func g() { print 'g' } let h = g h()"), lines(&["g"]));
}

#[test]
fn expression_statement_prints_nothing() {
    assert_eq!(prints("1 + 2 'a'"), lines(&[]));
}

#[test]
fn unbounded_recursion_is_a_runtime_error() {
    assert_eq!(run("func f() { f() } f()"), (vec![], runtime("Call depth exceeded")));
    assert_eq!(
        run("func f(n) { print 'x' + (1 + f(n + 1)) } f(0)"),
        (vec![], runtime("Call depth exceeded"))
    );
}

#[test]
fn recursion_prints_until_the_limit() {
    let (out, r) = run("func f() { print 1 f() } f()");
    assert_eq!(r, runtime("Call depth exceeded"));
    assert_eq!(out.len(), MAX_CALL_DEPTH);
}

fn chain(length: usize) -> Program {
    let mut statements = vec![Stmt::FuncDef {
        name: "f0".to_string(),
        params: vec![],
        body: vec![Stmt::Print(Expr::String("bottom".to_string()))],
    }];
    for k in 1..length {
        statements.push(Stmt::FuncDef {
            name: format!("f{}", k),
            params: vec![],
            body: vec![Stmt::Expr(Expr::Call { name: format!("f{}", k - 1), args: vec![] })],
        });
    }
    statements.push(Stmt::Expr(Expr::Call { name: format!("f{}", length - 1), args: vec![] }));
    Program { statements }
}

#[test]
fn calls_nest_up_to_the_limit() {
    let mut out = Vec::new();
    let r = eval(&chain(MAX_CALL_DEPTH), &arith, &show, &mut out);
    assert_eq!(r, Ok(()));
    assert_eq!(out, lines(&["bottom"]));
}

#[test]
fn one_call_deeper_than_the_limit_fails() {
    let mut out = Vec::new();
    let r = eval(&chain(MAX_CALL_DEPTH + 1), &arith, &show, &mut out);
    assert_eq!(r, runtime("Call depth exceeded"));
    assert_eq!(out, lines(&[]));
}

#[test]
fn eval_takes_arithmetic_and_format_from_the_host() {
    let tokens = tokenize("print 6 / 3 print 6 - 3 print 'a' + 'b'", &|text: &str| {
        text.parse::<u64>().ok()
    })
    .unwrap();
    let program = parse(&tokens).unwrap();
    let integer = |op: BinaryOp, a: u64, b: u64| match op {
        BinaryOp::Add => a + b,
        BinaryOp::Sub => a - b,
        BinaryOp::Mul => a * b,
        BinaryOp::Div => a / b,
    };
    let hex = |n: u64| format!("{:#x}", n);
    let mut out = Vec::new();
    assert_eq!(eval(&program, &integer, &hex, &mut out), Ok(()));
    assert_eq!(out, lines(&["0x2", "0x3", "ab"]));
}

#[test]
fn zero_of_a_call_is_positive_zero() {
    assert_eq!(prints("func f() { } print 1 / f()"), lines(&["inf"]));
}

#[test]
fn eval_error_messages() {
    assert_eq!(
        EvalError::UndefinedVar("x".to_string()).to_string(),
        "Undefined variable: 'x'"
    );
    assert_eq!(
        EvalError::UndefinedFunc("f".to_string()).to_string(),
        "Undefined function: 'f'"
    );
    assert_eq!(EvalError::ArgumentMismatch.to_string(), "Function argument count mismatch");
    assert_eq!(
        EvalError::Runtime("Expected numbers".to_string()).to_string(),
        "Runtime error: Expected numbers"
    );
}
