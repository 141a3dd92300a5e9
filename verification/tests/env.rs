use nusa::ast::{Expr, Stmt};
use nusa::env::{Env, Value};

fn name(s: &str) -> String {
    s.to_string()
}

#[test]
fn new_environment_binds_nothing() {
    let env = Env::new();
    assert_eq!(env.get(&name("x")), None);
    assert_eq!(env.get(&name("")), None);
}

#[test]
fn insert_binds_a_name() {
    let mut env = Env::new();
    env.insert(name("x"), Value::Number(7));
    assert_eq!(env.get(&name("x")), Some(&Value::Number(7)));
    assert_eq!(env.get(&name("y")), None);
    assert_eq!(env.get(&name("X")), None);
}

#[test]
fn insert_replaces_what_a_name_was_bound_to() {
    let mut env = Env::new();
    env.insert(name("x"), Value::Number(1));
    env.insert(name("y"), Value::String(name("a")));
    env.insert(name("x"), Value::String(name("b")));
    assert_eq!(env.get(&name("x")), Some(&Value::String(name("b"))));
    assert_eq!(env.get(&name("y")), Some(&Value::String(name("a"))));
    env.insert(name("y"), Value::Function { params: vec![name("p")], body: vec![] });
    assert_eq!(
        env.get(&name("y")),
        Some(&Value::Function { params: vec![name("p")], body: vec![] })
    );
    assert_eq!(env.get(&name("x")), Some(&Value::String(name("b"))));
}

#[test]
fn clone_of_an_environment_is_independent() {
    let mut env = Env::new();
    env.insert(name("x"), Value::Number(1));
    env.insert(name("f"), Value::Function {
        params: vec![name("a")],
        body: vec![Stmt::Print(Expr::Ident(name("a")))],
    });
    let mut copy = env.clone();
    assert_eq!(copy.get(&name("x")), Some(&Value::Number(1)));
    assert_eq!(copy.get(&name("f")), env.get(&name("f")));
    copy.insert(name("x"), Value::Number(2));
    copy.insert(name("y"), Value::Number(3));
    assert_eq!(env.get(&name("x")), Some(&Value::Number(1)));
    assert_eq!(env.get(&name("y")), None);
    assert_eq!(copy.get(&name("x")), Some(&Value::Number(2)));
    assert_eq!(copy.get(&name("y")), Some(&Value::Number(3)));
}

#[test]
fn clone_of_a_value_is_equal_to_it() {
    let function = Value::Function {
        params: vec![name("a"), name("b")],
        body: vec![Stmt::Let(name("c"), Expr::Number(1)), Stmt::Print(Expr::Ident(name("c")))],
    };
    assert_eq!(function.clone(), function);
    assert_eq!(Value::Number(5).clone(), Value::Number(5));
    assert_eq!(Value::String(name("s")).clone(), Value::String(name("s")));
}
