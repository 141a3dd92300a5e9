//! The evaluator: runs a program against an environment and a sink of
//! printed lines.
//!
//! [`value_of`], [`run_stmt`] and [`run_block`] define what an expression,
//! a statement and a sequence of statements do: what they print, and the
//! value, the environment or the error they end with. [`eval`] and the
//! functions under it compute exactly that.
use vstd::prelude::*;
use crate::ast::{BinaryOp, Expr, ExprView, Program, Stmt, StmtView};
use crate::ast::{clone_stmts, exprs_view, stmts_view};
use crate::env::{Env, EnvView, Value, ValueView};
use crate::number::{computes_any, shows_any, NumberModel, ZERO};
use crate::text::{clone_names, lemma_names_view_push, names_view, string_of};

verus! {

/// How deep calls may nest. A call inside that many running calls is a
/// runtime error.
pub const MAX_CALL_DEPTH: usize = 128;

/// Why the evaluation of a program stopped.
#[derive(Debug, PartialEq)]
pub enum EvalError {
    /// An identifier that is not bound where it is read; it holds the name.
    UndefinedVar(String),
    /// A call of a name that is not bound; it holds the name.
    UndefinedFunc(String),
    /// A call with another number of arguments than the function has
    /// parameters.
    ArgumentMismatch,
    /// Any other failure; it holds a description.
    Runtime(String),
}

/// The view of an [`EvalError`].
pub ghost enum EvalErrorView {
    UndefinedVar(Seq<char>),
    UndefinedFunc(Seq<char>),
    ArgumentMismatch,
    Runtime(Seq<char>),
}

impl View for EvalError {
    type V = EvalErrorView;

    open spec fn view(&self) -> EvalErrorView {
        match self {
            EvalError::UndefinedVar(name) => EvalErrorView::UndefinedVar(name@),
            EvalError::UndefinedFunc(name) => EvalErrorView::UndefinedFunc(name@),
            EvalError::ArgumentMismatch => EvalErrorView::ArgumentMismatch,
            EvalError::Runtime(message) => EvalErrorView::Runtime(message@),
        }
    }
}

/// The message that describes an evaluation error.
pub open spec fn eval_error_message(e: EvalErrorView) -> Seq<char> {
    match e {
        EvalErrorView::UndefinedVar(name) => ("Undefined variable: '"@ + name).push('\''),
        EvalErrorView::UndefinedFunc(name) => ("Undefined function: '"@ + name).push('\''),
        EvalErrorView::ArgumentMismatch => "Function argument count mismatch"@,
        EvalErrorView::Runtime(message) => "Runtime error: "@ + message,
    }
}

impl EvalError {
    /// The message that describes this error.
    pub fn to_string(&self) -> (message: String)
        ensures
            message@ == eval_error_message(self@),
    {
        match self {
            EvalError::UndefinedVar(name) => {
                let mut message = string_of("Undefined variable: '");
                message.append(name.as_str());
                message.push('\'');
                message
            },
            EvalError::UndefinedFunc(name) => {
                let mut message = string_of("Undefined function: '");
                message.append(name.as_str());
                message.push('\'');
                message
            },
            EvalError::ArgumentMismatch => string_of("Function argument count mismatch"),
            EvalError::Runtime(message) => {
                let mut text = string_of("Runtime error: ");
                text.append(message.as_str());
                text
            },
        }
    }
}

/// The runtime error of an operator other than `+` on two strings.
pub open spec fn strings_message() -> Seq<char> {
    "Invalid operation for strings"@
}

/// The runtime error of an operator on operands that are neither two
/// numbers nor two strings.
pub open spec fn operands_message() -> Seq<char> {
    "Expected numbers"@
}

/// The runtime error of a call of a name that is bound to a number or a
/// string.
pub open spec fn callee_message() -> Seq<char> {
    "Cannot call non-function"@
}

/// The runtime error of a call inside [`MAX_CALL_DEPTH`] running calls.
pub open spec fn depth_message() -> Seq<char> {
    "Call depth exceeded"@
}

/// The line that `print` shows for a function.
pub open spec fn function_text() -> Seq<char> {
    "<function>"@
}

/// What a piece of a program did: the lines it printed, in order, and how
/// it ended. A piece that ends in an error has still printed what it
/// printed before.
pub ghost struct Outcome<T> {
    pub result: Result<T, EvalErrorView>,
    pub printed: Seq<Seq<char>>,
}

/// The outcome of printing nothing and ending with `result`.
pub open spec fn silent<T>(result: Result<T, EvalErrorView>) -> Outcome<T> {
    Outcome { result, printed: Seq::empty() }
}

/// The outcome of ending with the error `e` after printing `printed`.
pub open spec fn failed<T>(printed: Seq<Seq<char>>, e: EvalErrorView) -> Outcome<T> {
    Outcome { result: Err(e), printed }
}

/// `next`, after `printed` was printed before it.
pub open spec fn after<T>(printed: Seq<Seq<char>>, next: Outcome<T>) -> Outcome<T> {
    Outcome { result: next.result, printed: printed + next.printed }
}

/// The result of a binary operator on two values.
///
/// Two numbers give the number that the model computes. Two strings give
/// their concatenation under `+` and a runtime error under any other
/// operator. Every other pair of operands is a runtime error.
pub open spec fn apply_binary(m: NumberModel, op: BinaryOp, left: ValueView, right: ValueView) -> Result<
    ValueView,
    EvalErrorView,
> {
    match (left, right) {
        (ValueView::Number(a), ValueView::Number(b)) => Ok(ValueView::Number((m.apply)(op, a, b))),
        (ValueView::String(a), ValueView::String(b)) => if op == BinaryOp::Add {
            Ok(ValueView::String(a + b))
        } else {
            Err(EvalErrorView::Runtime(strings_message()))
        },
        _ => Err(EvalErrorView::Runtime(operands_message())),
    }
}

/// The line that `print` shows for a value: a number as the model shows
/// it, a string as it is, a function as a fixed text.
pub open spec fn shown(m: NumberModel, value: ValueView) -> Seq<char> {
    match value {
        ValueView::Number(n) => (m.show)(n),
        ValueView::String(s) => s,
        ValueView::Function { .. } => function_text(),
    }
}

/// `env` with each of `params` bound to the value at its place in
/// `values`, the first parameter first.
pub open spec fn bind_args(env: EnvView, params: Seq<Seq<char>>, values: Seq<ValueView>) -> EnvView
    decreases params.len(),
{
    if params.len() == 0 || values.len() == 0 {
        env
    } else {
        bind_args(env, params.drop_last(), values.drop_last()).insert(params.last(), values.last())
    }
}

/// The value of the expression `e` in `env`, with `depth` more levels of
/// calls allowed.
///
/// * A literal is its value; an identifier is what it is bound to, and an
///   error if it is unbound.
/// * A binary expression evaluates its left operand, then its right one,
///   then applies the operator.
/// * A call looks up the callee, checks that it is a function with as many
///   parameters as there are arguments and that one more level of calls is
///   allowed, evaluates the arguments in `env` from left to right, and runs
///   the body in a copy of `env` that binds the parameters. What the body
///   binds is lost with the copy. The value of a call is the number zero.
pub open spec fn value_of(m: NumberModel, e: ExprView, env: EnvView, depth: nat) -> Outcome<
    ValueView,
>
    decreases depth, 0int, e,
{
    match e {
        ExprView::Number(n) => silent(Ok(ValueView::Number(n))),
        ExprView::String(s) => silent(Ok(ValueView::String(s))),
        ExprView::Ident(name) => if env.contains_key(name) {
            silent(Ok(env[name]))
        } else {
            silent(Err(EvalErrorView::UndefinedVar(name)))
        },
        ExprView::Binary { left, op, right } => {
            let l = value_of(m, *left, env, depth);
            match l.result {
                Ok(a) => {
                    let r = value_of(m, *right, env, depth);
                    match r.result {
                        Ok(b) => Outcome {
                            result: apply_binary(m, op, a, b),
                            printed: l.printed + r.printed,
                        },
                        Err(e) => failed(l.printed + r.printed, e),
                    }
                },
                Err(e) => failed(l.printed, e),
            }
        },
        ExprView::Call { name, args } => if !env.contains_key(name) {
            silent(Err(EvalErrorView::UndefinedFunc(name)))
        } else {
            match env[name] {
                ValueView::Function { params, body } => if params.len() != args.len() {
                    silent(Err(EvalErrorView::ArgumentMismatch))
                } else if depth == 0 {
                    silent(Err(EvalErrorView::Runtime(depth_message())))
                } else {
                    let a = values_of(m, args, env, depth);
                    match a.result {
                        Ok(values) => {
                            let b = run_block(
                                m,
                                body,
                                bind_args(env, params, values),
                                (depth - 1) as nat,
                            );
                            match b.result {
                                Ok(_) => Outcome {
                                    result: Ok(ValueView::Number(ZERO)),
                                    printed: a.printed + b.printed,
                                },
                                Err(e) => failed(a.printed + b.printed, e),
                            }
                        },
                        Err(e) => failed(a.printed, e),
                    }
                },
                _ => silent(Err(EvalErrorView::Runtime(callee_message()))),
            }
        },
    }
}

/// The values of the expressions `args` in `env`, evaluated from left to
/// right up to the first that fails.
pub open spec fn values_of(m: NumberModel, args: Seq<ExprView>, env: EnvView, depth: nat) -> Outcome<
    Seq<ValueView>,
>
    decreases depth, 0int, args,
{
    if args.len() == 0 {
        silent(Ok(Seq::empty()))
    } else {
        let first = value_of(m, args[0], env, depth);
        match first.result {
            Ok(value) => {
                let rest = values_of(m, args.drop_first(), env, depth);
                match rest.result {
                    Ok(values) => Outcome {
                        result: Ok(seq![value] + values),
                        printed: first.printed + rest.printed,
                    },
                    Err(e) => failed(first.printed + rest.printed, e),
                }
            },
            Err(e) => failed(first.printed, e),
        }
    }
}

/// What the statement `s` does in `env`: the environment after it.
///
/// * `let` binds the name to the value of the expression.
/// * `print` prints one line for the value of the expression.
/// * An expression statement evaluates the expression and drops the value.
/// * A function definition binds the name to a function value.
pub open spec fn run_stmt(m: NumberModel, s: StmtView, env: EnvView, depth: nat) -> Outcome<EnvView>
    decreases depth, 1int, s,
{
    match s {
        StmtView::Let(name, e) => {
            let v = value_of(m, e, env, depth);
            match v.result {
                Ok(value) => Outcome { result: Ok(env.insert(name, value)), printed: v.printed },
                Err(e) => failed(v.printed, e),
            }
        },
        StmtView::Print(e) => {
            let v = value_of(m, e, env, depth);
            match v.result {
                Ok(value) => Outcome { result: Ok(env), printed: v.printed.push(shown(m, value)) },
                Err(e) => failed(v.printed, e),
            }
        },
        StmtView::Expr(e) => {
            let v = value_of(m, e, env, depth);
            match v.result {
                Ok(_) => Outcome { result: Ok(env), printed: v.printed },
                Err(e) => failed(v.printed, e),
            }
        },
        StmtView::FuncDef { name, params, body } => silent(
            Ok(env.insert(name, ValueView::Function { params, body })),
        ),
    }
}

/// What the statements `stmts` do in `env`, one after the other up to the
/// first that fails: the environment after them.
pub open spec fn run_block(m: NumberModel, stmts: Seq<StmtView>, env: EnvView, depth: nat) -> Outcome<
    EnvView,
>
    decreases depth, 2int, stmts,
{
    if stmts.len() == 0 {
        silent(Ok(env))
    } else {
        let first = run_stmt(m, stmts[0], env, depth);
        match first.result {
            Ok(next) => after(first.printed, run_block(m, stmts.drop_first(), next, depth)),
            Err(e) => failed(first.printed, e),
        }
    }
}

/// What a program does: its statements, run in an environment that binds
/// nothing, with [`MAX_CALL_DEPTH`] levels of calls allowed.
pub open spec fn run(m: NumberModel, program: Seq<StmtView>) -> Outcome<EnvView> {
    run_block(m, program, Map::empty(), MAX_CALL_DEPTH as nat)
}

/// Reading a name that is not bound fails with the error for an undefined
/// variable, which holds the name, and prints nothing.
pub proof fn law_unbound_identifier_fails(
    m: NumberModel,
    name: Seq<char>,
    env: EnvView,
    depth: nat,
)
    requires
        !env.contains_key(name),
    ensures
        value_of(m, ExprView::Ident(name), env, depth) == silent::<ValueView>(
            Err(EvalErrorView::UndefinedVar(name)),
        ),
{
}

/// An error in an operand is the error of the whole binary expression, and
/// the right operand is not evaluated after an error in the left one.
pub proof fn law_operand_error_propagates(
    m: NumberModel,
    left: ExprView,
    op: BinaryOp,
    right: ExprView,
    env: EnvView,
    depth: nat,
)
    ensures
        ({
            let whole = value_of(
                m,
                ExprView::Binary { left: Box::new(left), op, right: Box::new(right) },
                env,
                depth,
            );
            let l = value_of(m, left, env, depth);
            let r = value_of(m, right, env, depth);
            &&& l.result matches Err(e) ==> whole == failed::<ValueView>(l.printed, e)
            &&& l.result is Ok ==> (r.result matches Err(e) ==> whole == failed::<ValueView>(
                l.printed + r.printed,
                e,
            ))
        }),
{
}

/// A statement whose expression fails fails with the same error, after
/// the same printing, and binds nothing.
pub proof fn law_expression_error_stops_statement(
    m: NumberModel,
    s: StmtView,
    env: EnvView,
    depth: nat,
)
    ensures
        ({
            let whole = run_stmt(m, s, env, depth);
            match s {
                StmtView::Let(_, e) | StmtView::Print(e) | StmtView::Expr(e) => {
                    let v = value_of(m, e, env, depth);
                    v.result matches Err(err) ==> whole == failed::<EnvView>(v.printed, err)
                },
                StmtView::FuncDef { .. } => whole.result is Ok,
            }
        }),
{
}

/// Statements run one after the other: a sequence followed by another
/// does what the first does and then, in the environment that the first
/// leaves, what the second does. If the first fails, nothing of the
/// second runs.
pub proof fn law_first_error_halts(
    m: NumberModel,
    first: Seq<StmtView>,
    second: Seq<StmtView>,
    env: EnvView,
    depth: nat,
)
    ensures
        run_block(m, first + second, env, depth) == match run_block(m, first, env, depth).result {
            Ok(next) => after(
                run_block(m, first, env, depth).printed,
                run_block(m, second, next, depth),
            ),
            Err(_) => run_block(m, first, env, depth),
        },
    decreases first.len(),
{
    let whole = first + second;
    if first.len() == 0 {
        assert(whole =~= second);
        assert(Seq::<Seq<char>>::empty() + run_block(m, second, env, depth).printed =~= run_block(
            m,
            second,
            env,
            depth,
        ).printed);
    } else {
        assert(whole[0] == first[0]);
        assert(whole.drop_first() =~= first.drop_first() + second);
        let head = run_stmt(m, first[0], env, depth);
        if let Ok(next) = head.result {
            law_first_error_halts(m, first.drop_first(), second, next, depth);
            let tail = run_block(m, first.drop_first(), next, depth);
            if let Ok(last) = tail.result {
                let rest = run_block(m, second, last, depth);
                assert(head.printed + (tail.printed + rest.printed) =~= (head.printed
                    + tail.printed) + rest.printed);
            }
        }
    }
}

/// A call with another number of arguments than the function has
/// parameters fails before anything of it runs: no argument is evaluated
/// and nothing is printed.
pub proof fn law_arity_is_checked_first(
    m: NumberModel,
    name: Seq<char>,
    args: Seq<ExprView>,
    env: EnvView,
    depth: nat,
)
    requires
        env.contains_key(name),
        env[name] is Function,
        env[name]->params.len() != args.len(),
    ensures
        value_of(m, ExprView::Call { name, args }, env, depth) == silent::<ValueView>(
            Err(EvalErrorView::ArgumentMismatch),
        ),
{
}

/// The value of a call is the number zero, whatever its body did.
pub proof fn law_call_yields_zero(
    m: NumberModel,
    name: Seq<char>,
    args: Seq<ExprView>,
    env: EnvView,
    depth: nat,
)
    ensures
        value_of(m, ExprView::Call { name, args }, env, depth).result matches Ok(value) ==> value
            == ValueView::Number(ZERO),
{
}

/// What a statement may bind: `let` and a function definition bind their
/// own name and nothing else; `print` and an expression statement leave
/// the environment as it was. So whatever the calls inside a statement
/// bound in their own environments is not seen after it.
pub proof fn law_calls_leave_bindings(m: NumberModel, s: StmtView, env: EnvView, depth: nat)
    requires
        run_stmt(m, s, env, depth).result is Ok,
    ensures
        ({
            let next = run_stmt(m, s, env, depth).result->Ok_0;
            match s {
                StmtView::Let(name, e) => next == env.insert(
                    name,
                    value_of(m, e, env, depth).result->Ok_0,
                ),
                StmtView::FuncDef { name, params, body } => next == env.insert(
                    name,
                    ValueView::Function { params, body },
                ),
                StmtView::Print(_) | StmtView::Expr(_) => next == env,
            }
        }),
{
}

/// The body of a call runs in an environment of its own: the caller's
/// bindings with the parameters bound on top. Each parameter is bound to
/// its argument there, unless a later parameter has the same name.
pub proof fn law_parameters_are_bound(
    env: EnvView,
    params: Seq<Seq<char>>,
    values: Seq<ValueView>,
    k: int,
)
    requires
        params.len() == values.len(),
        0 <= k < params.len(),
        forall|j: int| k < j < params.len() ==> params[j] != params[k],
    ensures
        bind_args(env, params, values).contains_key(params[k]),
        bind_args(env, params, values)[params[k]] == values[k],
    decreases params.len(),
{
    if k < params.len() - 1 {
        law_parameters_are_bound(env, params.drop_last(), values.drop_last(), k);
    }
}

/// A name that is no parameter means in the body of a call what it means
/// for the caller.
pub proof fn law_callee_sees_caller(
    env: EnvView,
    params: Seq<Seq<char>>,
    values: Seq<ValueView>,
    name: Seq<char>,
)
    requires
        params.len() == values.len(),
        forall|j: int| 0 <= j < params.len() ==> params[j] != name,
    ensures
        bind_args(env, params, values).contains_key(name) == env.contains_key(name),
        env.contains_key(name) ==> bind_args(env, params, values)[name] == env[name],
    decreases params.len(),
{
    if params.len() > 0 {
        law_callee_sees_caller(env, params.drop_last(), values.drop_last(), name);
    }
}

/// Whether an outcome is the error of a call nested too deep.
pub open spec fn too_deep<T>(o: Outcome<T>) -> bool {
    o.result == Err::<T, EvalErrorView>(EvalErrorView::Runtime(depth_message()))
}

/// The limit on the depth of calls changes nothing but the runs that hit
/// it: an expression that does not end in the error of a call nested too
/// deep has the same outcome under every larger limit.
pub proof fn law_depth_only_limits(
    m: NumberModel,
    e: ExprView,
    env: EnvView,
    depth: nat,
    deeper: nat,
)
    requires
        depth <= deeper,
        !too_deep(value_of(m, e, env, depth)),
    ensures
        value_of(m, e, env, deeper) == value_of(m, e, env, depth),
    decreases depth, 0int, e,
{
    match e {
        ExprView::Binary { left, op, right } => {
            law_depth_only_limits(m, *left, env, depth, deeper);
            if value_of(m, *left, env, depth).result is Ok {
                law_depth_only_limits(m, *right, env, depth, deeper);
            }
        },
        ExprView::Call { name, args } => {
            if env.contains_key(name) {
                if let ValueView::Function { params, body } = env[name] {
                    if params.len() == args.len() && depth > 0 {
                        law_depth_only_limits_args(m, args, env, depth, deeper);
                        if let Ok(values) = values_of(m, args, env, depth).result {
                            law_depth_only_limits_block(
                                m,
                                body,
                                bind_args(env, params, values),
                                (depth - 1) as nat,
                                (deeper - 1) as nat,
                            );
                        }
                    }
                }
            }
        },
        _ => {},
    }
}

/// [`law_depth_only_limits`], for the arguments of a call.
pub proof fn law_depth_only_limits_args(
    m: NumberModel,
    args: Seq<ExprView>,
    env: EnvView,
    depth: nat,
    deeper: nat,
)
    requires
        depth <= deeper,
        !too_deep(values_of(m, args, env, depth)),
    ensures
        values_of(m, args, env, deeper) == values_of(m, args, env, depth),
    decreases depth, 0int, args,
{
    if args.len() > 0 {
        law_depth_only_limits(m, args[0], env, depth, deeper);
        if value_of(m, args[0], env, depth).result is Ok {
            law_depth_only_limits_args(m, args.drop_first(), env, depth, deeper);
        }
    }
}

/// [`law_depth_only_limits`], for a statement.
pub proof fn law_depth_only_limits_stmt(
    m: NumberModel,
    s: StmtView,
    env: EnvView,
    depth: nat,
    deeper: nat,
)
    requires
        depth <= deeper,
        !too_deep(run_stmt(m, s, env, depth)),
    ensures
        run_stmt(m, s, env, deeper) == run_stmt(m, s, env, depth),
    decreases depth, 1int, s,
{
    match s {
        StmtView::Let(_, e) | StmtView::Print(e) | StmtView::Expr(e) => {
            law_depth_only_limits(m, e, env, depth, deeper);
        },
        StmtView::FuncDef { .. } => {},
    }
}

/// [`law_depth_only_limits`], for a sequence of statements.
pub proof fn law_depth_only_limits_block(
    m: NumberModel,
    stmts: Seq<StmtView>,
    env: EnvView,
    depth: nat,
    deeper: nat,
)
    requires
        depth <= deeper,
        !too_deep(run_block(m, stmts, env, depth)),
    ensures
        run_block(m, stmts, env, deeper) == run_block(m, stmts, env, depth),
    decreases depth, 2int, stmts,
{
    if stmts.len() > 0 {
        law_depth_only_limits_stmt(m, stmts[0], env, depth, deeper);
        if let Ok(next) = run_stmt(m, stmts[0], env, depth).result {
            law_depth_only_limits_block(m, stmts.drop_first(), next, depth, deeper);
        }
    }
}

/// What a function that evaluates an expression did, held against the
/// outcome `o`: the sink grew by what `o` printed, and the function
/// returned the view of what `o` ended with.
pub open spec fn value_matches(
    r: Result<Value, EvalError>,
    before: Seq<String>,
    now: Seq<String>,
    o: Outcome<ValueView>,
) -> bool {
    &&& names_view(now) == names_view(before) + o.printed
    &&& match r {
        Ok(value) => o.result == Ok::<ValueView, EvalErrorView>(value@),
        Err(e) => o.result == Err::<ValueView, EvalErrorView>(e@),
    }
}

/// What a function that runs statements did, held against the outcome
/// `o`: the sink grew by what `o` printed, and the function left the
/// environment `env` that `o` ended with, or returned its error.
pub open spec fn env_matches(
    r: Result<(), EvalError>,
    env: EnvView,
    before: Seq<String>,
    now: Seq<String>,
    o: Outcome<EnvView>,
) -> bool {
    &&& names_view(now) == names_view(before) + o.printed
    &&& match r {
        Ok(_) => o.result == Ok::<EnvView, EvalErrorView>(env),
        Err(e) => o.result == Err::<EnvView, EvalErrorView>(e@),
    }
}

/// Applies a binary operator to two values.
fn apply<A: Fn(BinaryOp, u64, u64) -> u64>(op: BinaryOp, left: Value, right: Value, arith: &A) -> (r:
    Result<Value, EvalError>)
    requires
        computes_any(arith),
    ensures
        forall|m: NumberModel|
            m.computes(arith) ==> match r {
                Ok(value) => apply_binary(m, op, left@, right@) == Ok::<ValueView, EvalErrorView>(
                    value@,
                ),
                Err(e) => apply_binary(m, op, left@, right@) == Err::<ValueView, EvalErrorView>(e@),
            },
{
    match (left, right) {
        (Value::Number(a), Value::Number(b)) => Ok(Value::Number(arith(op, a, b))),
        (Value::String(a), Value::String(b)) => match op {
            BinaryOp::Add => {
                let mut joined = a;
                joined.append(b.as_str());
                Ok(Value::String(joined))
            },
            _ => Err(EvalError::Runtime(string_of("Invalid operation for strings"))),
        },
        _ => Err(EvalError::Runtime(string_of("Expected numbers"))),
    }
}

/// The line that `print` shows for `value`.
fn line_of<S: Fn(u64) -> String>(value: Value, show: &S) -> (line: String)
    requires
        shows_any(show),
    ensures
        forall|m: NumberModel| m.shows(show) ==> line@ == shown(m, value@),
{
    match value {
        Value::Number(n) => show(n),
        Value::String(s) => s,
        Value::Function { .. } => string_of("<function>"),
    }
}

/// Evaluates `expr` in `env`, with `depth` more levels of calls allowed,
/// and appends what it prints to `out`.
#[verifier::loop_isolation(false)]
fn eval_expr<A: Fn(BinaryOp, u64, u64) -> u64, S: Fn(u64) -> String>(
    expr: &Expr,
    env: &Env,
    depth: usize,
    arith: &A,
    show: &S,
    out: &mut Vec<String>,
) -> (r: Result<Value, EvalError>)
    requires
        env.wf(),
        computes_any(arith),
        shows_any(show),
    ensures
        forall|m: NumberModel|
            m.computes(arith) && m.shows(show) ==> value_matches(
                r,
                old(out)@,
                final(out)@,
                value_of(m, expr@, env@, depth as nat),
            ),
    decreases depth, 0int, expr,
{
    let ghost start = out@;
    assert(names_view(start) + Seq::<Seq<char>>::empty() =~= names_view(start));
    match expr {
        Expr::Number(n) => Ok(Value::Number(*n)),
        Expr::String(s) => Ok(Value::String(s.clone())),
        Expr::Ident(name) => match env.get(name) {
            Some(value) => Ok(value.clone()),
            None => Err(EvalError::UndefinedVar(name.clone())),
        },
        Expr::Binary { left, op, right } => {
            let l = eval_expr(left, env, depth, arith, show, out)?;
            let r = match eval_expr(right, env, depth, arith, show, out) {
                Ok(r) => r,
                Err(e) => {
                    proof {
                        assert forall|m: NumberModel|
                            m.computes(arith) && m.shows(show) implies value_matches(
                            Err(e),
                            start,
                            out@,
                            value_of(m, expr@, env@, depth as nat),
                        ) by {
                            let lo = value_of(m, left@, env@, depth as nat);
                            let ro = value_of(m, right@, env@, depth as nat);
                            assert((names_view(start) + lo.printed) + ro.printed =~= names_view(
                                start,
                            ) + (lo.printed + ro.printed));
                        }
                    }
                    return Err(e);
                },
            };
            let result = apply(*op, l, r, arith);
            proof {
                assert forall|m: NumberModel|
                    m.computes(arith) && m.shows(show) implies value_matches(
                    result,
                    start,
                    out@,
                    value_of(m, expr@, env@, depth as nat),
                ) by {
                    let lo = value_of(m, left@, env@, depth as nat);
                    let ro = value_of(m, right@, env@, depth as nat);
                    assert((names_view(start) + lo.printed) + ro.printed =~= names_view(start) + (
                    lo.printed + ro.printed));
                }
            }
            result
        },
        Expr::Call { name, args } => match env.get(name) {
            None => Err(EvalError::UndefinedFunc(name.clone())),
            Some(Value::Function { params, body }) => {
                proof {
                    assert(expr@ == ExprView::Call { name: name@, args: exprs_view(args@) });
                    assert(exprs_view(args@).len() == args.len());
                    assert forall|k: int| 0 <= k < args.len() implies exprs_view(args@)[k]
                        == args@[k]@ by {}
                }
                if params.len() != args.len() {
                    return Err(EvalError::ArgumentMismatch);
                }
                if depth == 0 {
                    return Err(EvalError::Runtime(string_of("Call depth exceeded")));
                }
                let ghost all = expr@->Call_args;
                let ghost names = names_view(params@);
                let mut callee = env.clone();
                let ghost mut values: Seq<ValueView> = Seq::empty();
                let mut i: usize = 0;
                assert(all.skip(0) =~= all);
                assert(names.take(0) =~= Seq::<Seq<char>>::empty());
                while i < args.len()
                    invariant
                        i <= args.len(),
                        values.len() == i,
                        callee.wf(),
                        callee@ == bind_args(env@, names.take(i as int), values),
                        forall|m: NumberModel|
                            m.computes(arith) && m.shows(show) ==> ({
                                let whole = values_of(m, all, env@, depth as nat);
                                let rest = values_of(m, all.skip(i as int), env@, depth as nat);
                                &&& names_view(start) + whole.printed == names_view(out@)
                                    + rest.printed
                                &&& whole.result == match rest.result {
                                    Ok(more) => Ok::<Seq<ValueView>, EvalErrorView>(values + more),
                                    Err(e) => Err(e),
                                }
                            }),
                    decreases args.len() - i,
                {
                    let ghost before = out@;
                    let ghost bound = values;
                    let r = eval_expr(&args[i], env, depth, arith, show, out);
                    proof {
                        assert(all.skip(i as int)[0] == args@[i as int]@);
                        assert(all.skip(i as int).drop_first() =~= all.skip(i + 1));
                    }
                    let value = match r {
                        Ok(value) => value,
                        Err(e) => {
                            proof {
                                assert forall|m: NumberModel|
                                    m.computes(arith) && m.shows(show) implies value_matches(
                                    Err(e),
                                    start,
                                    out@,
                                    value_of(m, expr@, env@, depth as nat),
                                ) by {
                                    let first = value_of(m, args@[i as int]@, env@, depth as nat);
                                    assert(names_view(before) + first.printed == names_view(out@));
                                }
                            }
                            return Err(e);
                        },
                    };
                    proof {
                        values = values.push(value@);
                        assert(names.take(i + 1).drop_last() =~= names.take(i as int));
                        assert(values.drop_last() =~= bound);
                        assert forall|m: NumberModel|
                            m.computes(arith) && m.shows(show) implies ({
                            let whole = values_of(m, all, env@, depth as nat);
                            let rest = values_of(m, all.skip(i + 1), env@, depth as nat);
                            &&& names_view(start) + whole.printed == names_view(out@) + rest.printed
                            &&& whole.result == match rest.result {
                                Ok(more) => Ok::<Seq<ValueView>, EvalErrorView>(values + more),
                                Err(e) => Err(e),
                            }
                        }) by {
                            let first = value_of(m, args@[i as int]@, env@, depth as nat);
                            let rest = values_of(m, all.skip(i + 1), env@, depth as nat);
                            assert((names_view(before) + first.printed) + rest.printed
                                =~= names_view(before) + (first.printed + rest.printed));
                            if let Ok(more) = rest.result {
                                assert(bound + (seq![value@] + more) =~= values + more);
                            }
                        }
                    }
                    callee.insert(params[i].clone(), value);
                    i += 1;
                }
                let ghost middle = out@;
                proof {
                    assert(names.take(i as int) =~= names);
                    assert(all.skip(i as int) =~= Seq::<ExprView>::empty());
                    assert(values + Seq::<ValueView>::empty() =~= values);
                }
                let ghost inside = callee@;
                let done = exec_block(body, &mut callee, depth - 1, arith, show, out);
                proof {
                    assert forall|m: NumberModel|
                        m.computes(arith) && m.shows(show) implies value_matches(
                        match done {
                            Ok(_) => Ok(Value::Number(ZERO)),
                            Err(e) => Err(e),
                        },
                        start,
                        out@,
                        value_of(m, expr@, env@, depth as nat),
                    ) by {
                        let a = values_of(m, all, env@, depth as nat);
                        let b = run_block(m, stmts_view(body@), inside, (depth - 1) as nat);
                        assert(names_view(middle) == names_view(start) + a.printed);
                        assert((names_view(start) + a.printed) + b.printed =~= names_view(start)
                            + (a.printed + b.printed));
                    }
                }
                match done {
                    Ok(_) => Ok(Value::Number(ZERO)),
                    Err(e) => Err(e),
                }
            },
            Some(_) => Err(EvalError::Runtime(string_of("Cannot call non-function"))),
        },
    }
}

/// Runs `stmt` in `env` and appends what it prints to `out`.
fn exec_stmt<A: Fn(BinaryOp, u64, u64) -> u64, S: Fn(u64) -> String>(
    stmt: &Stmt,
    env: &mut Env,
    depth: usize,
    arith: &A,
    show: &S,
    out: &mut Vec<String>,
) -> (r: Result<(), EvalError>)
    requires
        old(env).wf(),
        computes_any(arith),
        shows_any(show),
    ensures
        final(env).wf(),
        r is Err ==> final(env)@ == old(env)@,
        forall|m: NumberModel|
            m.computes(arith) && m.shows(show) ==> env_matches(
                r,
                final(env)@,
                old(out)@,
                final(out)@,
                run_stmt(m, stmt@, old(env)@, depth as nat),
            ),
    decreases depth, 1int, stmt,
{
    let ghost start = out@;
    match stmt {
        Stmt::Let(name, e) => {
            let value = eval_expr(e, env, depth, arith, show, out)?;
            env.insert(name.clone(), value);
        },
        Stmt::Print(e) => {
            let value = eval_expr(e, env, depth, arith, show, out)?;
            let line = line_of(value, show);
            proof {
                lemma_names_view_push(out@, line);
            }
            out.push(line);
        },
        Stmt::Expr(e) => {
            eval_expr(e, env, depth, arith, show, out)?;
        },
        Stmt::FuncDef { name, params, body } => {
            let value = Value::Function { params: clone_names(params), body: clone_stmts(body) };
            env.insert(name.clone(), value);
            assert(names_view(start) + Seq::<Seq<char>>::empty() =~= names_view(start));
        },
    }
    Ok(())
}

/// Runs `stmts` in `env`, one after the other up to the first that fails,
/// and appends what they print to `out`.
#[verifier::loop_isolation(false)]
fn exec_block<A: Fn(BinaryOp, u64, u64) -> u64, S: Fn(u64) -> String>(
    stmts: &Vec<Stmt>,
    env: &mut Env,
    depth: usize,
    arith: &A,
    show: &S,
    out: &mut Vec<String>,
) -> (r: Result<(), EvalError>)
    requires
        old(env).wf(),
        computes_any(arith),
        shows_any(show),
    ensures
        final(env).wf(),
        forall|m: NumberModel|
            m.computes(arith) && m.shows(show) ==> env_matches(
                r,
                final(env)@,
                old(out)@,
                final(out)@,
                run_block(m, stmts_view(stmts@), old(env)@, depth as nat),
            ),
    decreases depth, 2int, stmts,
{
    let ghost start = out@;
    let ghost first = env@;
    let ghost all = stmts_view(stmts@);
    let mut i: usize = 0;
    assert(all.skip(0) =~= all);
    while i < stmts.len()
        invariant
            i <= stmts.len(),
            env.wf(),
            forall|m: NumberModel|
                m.computes(arith) && m.shows(show) ==> ({
                    let whole = run_block(m, all, first, depth as nat);
                    let rest = run_block(m, all.skip(i as int), env@, depth as nat);
                    &&& names_view(start) + whole.printed == names_view(out@) + rest.printed
                    &&& whole.result == rest.result
                }),
        decreases stmts.len() - i,
    {
        let ghost before = out@;
        let ghost here = env@;
        let r = exec_stmt(&stmts[i], env, depth, arith, show, out);
        proof {
            assert(all.skip(i as int)[0] == stmts@[i as int]@);
            assert(all.skip(i as int).drop_first() =~= all.skip(i + 1));
            assert forall|m: NumberModel| m.computes(arith) && m.shows(show) implies ({
                let whole = run_block(m, all, first, depth as nat);
                let one = run_stmt(m, stmts@[i as int]@, here, depth as nat);
                let rest = run_block(m, all.skip(i + 1), env@, depth as nat);
                if one.result is Ok {
                    &&& names_view(start) + whole.printed == names_view(out@) + rest.printed
                    &&& whole.result == rest.result
                } else {
                    &&& names_view(start) + whole.printed == names_view(out@)
                    &&& whole.result == one.result
                }
            }) by {
                let one = run_stmt(m, stmts@[i as int]@, here, depth as nat);
                let rest = run_block(m, all.skip(i + 1), env@, depth as nat);
                assert((names_view(before) + one.printed) + rest.printed =~= names_view(before) + (
                one.printed + rest.printed));
            }
        }
        match r {
            Ok(_) => {},
            Err(e) => {
                return Err(e);
            },
        }
        i += 1;
    }
    proof {
        assert(all.skip(i as int) =~= Seq::<StmtView>::empty());
        assert(names_view(out@) + Seq::<Seq<char>>::empty() =~= names_view(out@));
    }
    Ok(())
}

/// Runs `prog` in an environment that binds nothing and appends one line
/// to `out` for each `print` it executes, in order. It stops at the first
/// error and returns it; the lines printed before are in `out` then.
///
/// `arith` applies a binary operator to two numbers, and `show` formats a
/// number for `print`. For every model that describes both, what was
/// appended and how the run ended is what [`run`] defines.
pub fn eval<A: Fn(BinaryOp, u64, u64) -> u64, S: Fn(u64) -> String>(
    prog: &Program,
    arith: &A,
    show: &S,
    out: &mut Vec<String>,
) -> (r: Result<(), EvalError>)
    requires
        computes_any(arith),
        shows_any(show),
    ensures
        forall|m: NumberModel|
            m.computes(arith) && m.shows(show) ==> ({
                let o = run(m, prog@);
                &&& names_view(final(out)@) == names_view(old(out)@) + o.printed
                &&& match r {
                    Ok(_) => o.result is Ok,
                    Err(e) => o.result == Err::<EnvView, EvalErrorView>(e@),
                }
            }),
{
    let mut env = Env::new();
    exec_block(&prog.statements, &mut env, MAX_CALL_DEPTH, arith, show, out)
}

} // verus!
