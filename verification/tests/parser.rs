use nusa::ast::{BinaryOp, Expr, Program, Stmt};
use nusa::lexer::{tokenize, Token};
use nusa::parser::{parse, ParseError};

fn number_of(text: &str) -> Option<u64> {
    text.parse::<f64>().ok().map(f64::to_bits)
}

fn parse_source(source: &str) -> Result<Program, ParseError> {
    let tokens = tokenize(source, &number_of).expect("the source has tokens");
    parse(&tokens)
}

fn statements(source: &str) -> Vec<Stmt> {
    parse_source(source).expect("the tokens spell a program").statements
}

fn num(value: f64) -> Expr {
    Expr::Number(value.to_bits())
}

fn var(name: &str) -> Expr {
    Expr::Ident(name.to_string())
}

fn text(value: &str) -> Expr {
    Expr::String(value.to_string())
}

fn binary(left: Expr, op: BinaryOp, right: Expr) -> Expr {
    Expr::Binary { left: Box::new(left), op, right: Box::new(right) }
}

fn call(name: &str, args: Vec<Expr>) -> Expr {
    Expr::Call { name: name.to_string(), args }
}

#[test]
fn parse_no_tokens_is_the_empty_program() {
    assert_eq!(parse(&[]), Ok(Program { statements: vec![] }));
}

#[test]
fn parse_let_statement() {
    assert_eq!(statements("let x = 1"), vec![Stmt::Let("x".to_string(), num(1.0))]);
}

#[test]
fn parse_print_statement() {
    assert_eq!(statements("print 'a'"), vec![Stmt::Print(text("a"))]);
}

#[test]
fn parse_expression_statement() {
    assert_eq!(statements("x"), vec![Stmt::Expr(var("x"))]);
    assert_eq!(statements("f()"), vec![Stmt::Expr(call("f", vec![]))]);
}

#[test]
fn parse_function_definition() {
    assert_eq!(
        statements("func add(a, b) { let c = a + b print c }"),
        vec![Stmt::FuncDef {
            name: "add".to_string(),
            params: vec!["a".to_string(), "b".to_string()],
            body: vec![
                Stmt::Let("c".to_string(), binary(var("a"), BinaryOp::Add, var("b"))),
                Stmt::Print(var("c")),
            ],
        }]
    );
}

#[test]
fn parse_function_without_parameters_and_body() {
    assert_eq!(
        statements("func f() { }"),
        vec![Stmt::FuncDef { name: "f".to_string(), params: vec![], body: vec![] }]
    );
}

#[test]
fn parse_nested_function_definitions() {
    assert_eq!(
        statements("func outer() { func inner(x) { print x } inner(1) }"),
        vec![Stmt::FuncDef {
            name: "outer".to_string(),
            params: vec![],
            body: vec![
                Stmt::FuncDef {
                    name: "inner".to_string(),
                    params: vec!["x".to_string()],
                    body: vec![Stmt::Print(var("x"))],
                },
                Stmt::Expr(call("inner", vec![num(1.0)])),
            ],
        }]
    );
}

#[test]
fn parse_multiplication_binds_tighter_than_addition() {
    assert_eq!(
        statements("1 + 2 * 3"),
        vec![Stmt::Expr(binary(
            num(1.0),
            BinaryOp::Add,
            binary(num(2.0), BinaryOp::Mul, num(3.0))
        ))]
    );
    assert_eq!(
        statements("1 * 2 + 3"),
        vec![Stmt::Expr(binary(
            binary(num(1.0), BinaryOp::Mul, num(2.0)),
            BinaryOp::Add,
            num(3.0)
        ))]
    );
    assert_eq!(
        statements("8 - 6 / 2"),
        vec![Stmt::Expr(binary(
            num(8.0),
            BinaryOp::Sub,
            binary(num(6.0), BinaryOp::Div, num(2.0))
        ))]
    );
}

#[test]
fn parse_operators_group_to_the_left() {
    assert_eq!(
        statements("1 - 2 - 3"),
        vec![Stmt::Expr(binary(
            binary(num(1.0), BinaryOp::Sub, num(2.0)),
            BinaryOp::Sub,
            num(3.0)
        ))]
    );
    assert_eq!(
        statements("8 / 4 * 2"),
        vec![Stmt::Expr(binary(
            binary(num(8.0), BinaryOp::Div, num(4.0)),
            BinaryOp::Mul,
            num(2.0)
        ))]
    );
    assert_eq!(
        statements("1 + 2 * 3 - 4"),
        vec![Stmt::Expr(binary(
            binary(num(1.0), BinaryOp::Add, binary(num(2.0), BinaryOp::Mul, num(3.0))),
            BinaryOp::Sub,
            num(4.0)
        ))]
    );
}

#[test]
fn parse_parentheses() {
    assert_eq!(
        statements("(1 + 2) * 3"),
        vec![Stmt::Expr(binary(
            binary(num(1.0), BinaryOp::Add, num(2.0)),
            BinaryOp::Mul,
            num(3.0)
        ))]
    );
    assert_eq!(statements("((x))"), vec![Stmt::Expr(var("x"))]);
}

#[test]
fn parse_call_arguments() {
    assert_eq!(
        statements("f(1, 'a', x + 1, g(2))"),
        vec![Stmt::Expr(call(
            "f",
            vec![
                num(1.0),
                text("a"),
                binary(var("x"), BinaryOp::Add, num(1.0)),
                call("g", vec![num(2.0)]),
            ]
        ))]
    );
}

#[test]
fn parse_comma_before_closing_parenthesis() {
    assert_eq!(statements("f(1,)"), vec![Stmt::Expr(call("f", vec![num(1.0)]))]);
    assert_eq!(
        statements("func f(a,) { }"),
        vec![Stmt::FuncDef { name: "f".to_string(), params: vec!["a".to_string()], body: vec![] }]
    );
}

#[test]
fn parse_arguments_stop_where_no_comma_follows() {
    assert_eq!(parse_source("f(1 2)"), Err(ParseError::UnexpectedToken));
    assert_eq!(parse_source("func f(a b) { }"), Err(ParseError::UnexpectedToken));
}

#[test]
fn parse_identifier_followed_by_parenthesis_is_a_call() {
    assert_eq!(statements("x (1)"), vec![Stmt::Expr(call("x", vec![num(1.0)]))]);
    assert_eq!(
        statements("let a = b (c)"),
        vec![Stmt::Let("a".to_string(), call("b", vec![var("c")]))]
    );
}

#[test]
fn parse_statements_follow_each_other_without_separator() {
    let stmts = statements("let a = 1 print a f() func g() { print 1 } 2 + 3");
    assert_eq!(stmts.len(), 5);
    assert_eq!(stmts[0], Stmt::Let("a".to_string(), num(1.0)));
    assert_eq!(stmts[1], Stmt::Print(var("a")));
    assert_eq!(stmts[2], Stmt::Expr(call("f", vec![])));
    assert_eq!(
        stmts[3],
        Stmt::FuncDef { name: "g".to_string(), params: vec![], body: vec![Stmt::Print(num(1.0))] }
    );
    assert_eq!(stmts[4], Stmt::Expr(binary(num(2.0), BinaryOp::Add, num(3.0))));
}

#[test]
fn parse_statement_kind_follows_leading_token() {
    let stmts = statements("print 1 let a = 2 a func f() { } 'x' (1) f()");
    let kinds: Vec<&str> = stmts
        .iter()
        .map(|s| match s {
            Stmt::Let(..) => "let",
            Stmt::Expr(..) => "expr",
            Stmt::FuncDef { .. } => "func",
            Stmt::Print(..) => "print",
        })
        .collect();
    assert_eq!(kinds, vec!["print", "let", "expr", "func", "expr", "expr", "expr"]);
}

#[test]
fn parse_semicolon_starts_no_statement() {
    assert_eq!(parse_source("let x = 1;"), Err(ParseError::UnexpectedToken));
    assert_eq!(parse_source("let x = 1 + 2 * 3; print x;"), Err(ParseError::UnexpectedToken));
    assert_eq!(parse_source("func f(a) { print a; }"), Err(ParseError::UnexpectedToken));
    assert_eq!(parse(&[Token::Semicolon]), Err(ParseError::UnexpectedToken));
}

#[test]
fn parse_unexpected_token() {
    assert_eq!(parse_source(")"), Err(ParseError::UnexpectedToken));
    assert_eq!(parse_source("+ 1"), Err(ParseError::UnexpectedToken));
    assert_eq!(parse_source("1 + * 2"), Err(ParseError::UnexpectedToken));
    assert_eq!(parse_source("let 1 = 2"), Err(ParseError::UnexpectedToken));
    assert_eq!(parse_source("let x 1"), Err(ParseError::UnexpectedToken));
    assert_eq!(parse_source("func 1() { }"), Err(ParseError::UnexpectedToken));
    assert_eq!(parse_source("func f { }"), Err(ParseError::UnexpectedToken));
    assert_eq!(parse_source("func f() print 1"), Err(ParseError::UnexpectedToken));
    assert_eq!(parse_source("func f(1) { }"), Err(ParseError::UnexpectedToken));
    assert_eq!(parse_source("(1 2"), Err(ParseError::UnexpectedToken));
    assert_eq!(parse_source("}"), Err(ParseError::UnexpectedToken));
}

#[test]
fn parse_end_of_tokens_where_a_node_must_start_is_unexpected_token() {
    assert_eq!(parse_source("let"), Err(ParseError::UnexpectedToken));
    assert_eq!(parse_source("let x"), Err(ParseError::UnexpectedToken));
    assert_eq!(parse_source("let x ="), Err(ParseError::UnexpectedToken));
    assert_eq!(parse_source("print"), Err(ParseError::UnexpectedToken));
    assert_eq!(parse_source("func"), Err(ParseError::UnexpectedToken));
    assert_eq!(parse_source("1 +"), Err(ParseError::UnexpectedToken));
    assert_eq!(parse_source("("), Err(ParseError::UnexpectedToken));
    assert_eq!(parse_source("f("), Err(ParseError::UnexpectedToken));
    assert_eq!(parse_source("f(1,"), Err(ParseError::UnexpectedToken));
    assert_eq!(parse_source("func f() {"), Err(ParseError::UnexpectedToken));
    assert_eq!(parse_source("func f() { print 1"), Err(ParseError::UnexpectedToken));
}

#[test]
fn parse_end_of_tokens_where_punctuation_must_follow_is_unexpected_eof() {
    assert_eq!(parse_source("(1"), Err(ParseError::UnexpectedEOF));
    assert_eq!(parse_source("f(1"), Err(ParseError::UnexpectedEOF));
    assert_eq!(parse_source("func f"), Err(ParseError::UnexpectedEOF));
    assert_eq!(parse_source("func f("), Err(ParseError::UnexpectedEOF));
    assert_eq!(parse_source("func f(a"), Err(ParseError::UnexpectedEOF));
    assert_eq!(parse_source("func f()"), Err(ParseError::UnexpectedEOF));
}

#[test]
fn parse_first_error_wins() {
    assert_eq!(parse_source("(1 ) ) func f"), Err(ParseError::UnexpectedToken));
    assert_eq!(parse_source("func f ) ("), Err(ParseError::UnexpectedToken));
}

#[test]
fn parse_error_messages() {
    assert_eq!(ParseError::UnexpectedToken.to_string(), "Unexpected token");
    assert_eq!(ParseError::UnexpectedEOF.to_string(), "Unexpected end of file");
}

#[test]
fn clone_of_a_program_is_equal_to_it() {
    let program = parse_source(
        "let a = 1 + 2 * (3 - 'x') func f(p, q) { print p func g() { } g() } f(a, 'b') print f",
    )
    .unwrap();
    let copy = program.clone();
    assert_eq!(copy, program);
    assert_eq!(copy.statements.len(), 4);
    assert_eq!(copy.statements[2].clone(), program.statements[2]);
}
