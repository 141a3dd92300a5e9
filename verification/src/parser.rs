//! The parser: from tokens to a program.
//!
//! The grammar is defined by a family of functions on a token sequence and
//! a position, each giving the node that starts at the position together
//! with the position after it, or the first error. [`program_at`] is the
//! whole program; [`parse`] computes exactly `program_at(tokens, 0)`.
use vstd::prelude::*;
use crate::ast::{
    lemma_exprs_view_push, lemma_stmts_view_push, stmts_view, BinaryOp, Expr, ExprView, Program,
    Stmt, StmtView,
};
use crate::ast::exprs_view;
use crate::lexer::{tokens_view, Token, TokenView};
use crate::text::{lemma_names_view_push, names_view, string_of};

verus! {

/// Why a token sequence is no program.
#[derive(Debug, Clone, Copy, PartialEq, Eq, Structural)]
pub enum ParseError {
    /// A token that cannot stand where it stands, or none where a statement
    /// or an expression must start.
    UnexpectedToken,
    /// The tokens end where a given punctuation token must follow.
    UnexpectedEOF,
}

/// The message that describes a parse error.
pub open spec fn parse_error_message(e: ParseError) -> Seq<char> {
    match e {
        ParseError::UnexpectedToken => "Unexpected token"@,
        ParseError::UnexpectedEOF => "Unexpected end of file"@,
    }
}

impl ParseError {
    /// The message that describes this error.
    pub fn to_string(&self) -> (message: String)
        ensures
            message@ == parse_error_message(*self),
    {
        match self {
            ParseError::UnexpectedToken => string_of("Unexpected token"),
            ParseError::UnexpectedEOF => string_of("Unexpected end of file"),
        }
    }
}

/// A node together with the position after it, or an error.
pub type Parsed<T> = Result<(T, int), ParseError>;

/// The token at `pos`, if there is one.
pub open spec fn token_at(t: Seq<TokenView>, pos: int) -> Option<TokenView> {
    if 0 <= pos < t.len() {
        Some(t[pos])
    } else {
        None
    }
}

/// The position after the `expected` token at `pos`: an error if another
/// token stands there, and another error if none does.
pub open spec fn expect_at(t: Seq<TokenView>, pos: int, expected: TokenView) -> Result<
    int,
    ParseError,
> {
    match token_at(t, pos) {
        None => Err(ParseError::UnexpectedEOF),
        Some(token) => if token == expected {
            Ok(pos + 1)
        } else {
            Err(ParseError::UnexpectedToken)
        },
    }
}

/// The binary operator at `pos`, with its precedence: 1 for `+` and `-`,
/// 2 for `*` and `/`.
pub open spec fn operator_at(t: Seq<TokenView>, pos: int) -> Option<(int, BinaryOp)> {
    match token_at(t, pos) {
        Some(TokenView::Plus) => Some((1, BinaryOp::Add)),
        Some(TokenView::Minus) => Some((1, BinaryOp::Sub)),
        Some(TokenView::Star) => Some((2, BinaryOp::Mul)),
        Some(TokenView::Slash) => Some((2, BinaryOp::Div)),
        _ => None,
    }
}

/// `r`, provided that it ends after `from` and inside the tokens.
///
/// Every node spans at least one token, so this changes no result
/// ([`lemma_nodes_span_tokens`]); it is how the definitions below show that
/// they end.
pub open spec fn forward<T>(t: Seq<TokenView>, from: int, r: Parsed<T>) -> Parsed<T> {
    match r {
        Ok((node, next)) => if from < next <= t.len() {
            r
        } else {
            Err(ParseError::UnexpectedToken)
        },
        Err(e) => Err(e),
    }
}

/// `rest` with `prefix` put in front of its nodes.
pub open spec fn with_nodes<T>(prefix: Seq<T>, rest: Parsed<Seq<T>>) -> Parsed<Seq<T>> {
    match rest {
        Ok((nodes, next)) => Ok((prefix + nodes, next)),
        Err(e) => Err(e),
    }
}

/// The primary expression at `pos`: a number, a string, an identifier, a
/// call (an identifier directly followed by `(`), or an expression in
/// parentheses.
pub open spec fn primary_at(t: Seq<TokenView>, pos: int) -> Parsed<ExprView>
    decreases t.len() - pos, 0int,
{
    match token_at(t, pos) {
        Some(TokenView::Number(n)) => Ok((ExprView::Number(n), pos + 1)),
        Some(TokenView::String(s)) => Ok((ExprView::String(s), pos + 1)),
        Some(TokenView::Ident(name)) => {
            if token_at(t, pos + 1) == Some(TokenView::LParen) {
                match args_at(t, pos + 2) {
                    Ok((args, end)) => match expect_at(t, end, TokenView::RParen) {
                        Ok(next) => Ok((ExprView::Call { name, args }, next)),
                        Err(e) => Err(e),
                    },
                    Err(e) => Err(e),
                }
            } else {
                Ok((ExprView::Ident(name), pos + 1))
            }
        },
        Some(TokenView::LParen) => match expr_at(t, pos + 1) {
            Ok((inner, end)) => match expect_at(t, end, TokenView::RParen) {
                Ok(next) => Ok((inner, next)),
                Err(e) => Err(e),
            },
            Err(e) => Err(e),
        },
        _ => Err(ParseError::UnexpectedToken),
    }
}

/// The arguments of a call, from `pos` on, and the position where they
/// end: none if `)` stands at `pos`, else expressions separated by commas,
/// up to the first expression that no comma follows or the first comma
/// that `)` follows.
pub open spec fn args_at(t: Seq<TokenView>, pos: int) -> Parsed<Seq<ExprView>>
    decreases t.len() - pos, 3int,
{
    if token_at(t, pos) == Some(TokenView::RParen) {
        Ok((Seq::empty(), pos))
    } else {
        match forward(t, pos, expr_at(t, pos)) {
            Ok((arg, end)) => {
                if token_at(t, end) == Some(TokenView::Comma) {
                    with_nodes(seq![arg], args_at(t, end + 1))
                } else {
                    Ok((seq![arg], end))
                }
            },
            Err(e) => Err(e),
        }
    }
}

/// The expression at `pos`.
pub open spec fn expr_at(t: Seq<TokenView>, pos: int) -> Parsed<ExprView>
    decreases t.len() - pos, 2int,
{
    binary_at(t, pos, 0)
}

/// The longest expression at `pos` whose operators outside parentheses all
/// have at least the precedence `min_prec`.
pub open spec fn binary_at(t: Seq<TokenView>, pos: int, min_prec: int) -> Parsed<ExprView>
    decreases t.len() - pos, 1int,
{
    match forward(t, pos, primary_at(t, pos)) {
        Ok((left, end)) => climb_at(t, end, min_prec, left),
        Err(e) => Err(e),
    }
}

/// `left` extended by the operators and operands from `pos` on, as long as
/// the operator at hand has at least the precedence `min_prec`. The right
/// operand of an operator is the longest expression of higher precedence,
/// so operators of one precedence group to the left.
pub open spec fn climb_at(t: Seq<TokenView>, pos: int, min_prec: int, left: ExprView) -> Parsed<
    ExprView,
>
    decreases t.len() - pos, 0int,
{
    match operator_at(t, pos) {
        Some((prec, op)) => if prec >= min_prec {
            match forward(t, pos, binary_at(t, pos + 1, prec + 1)) {
                Ok((right, end)) => climb_at(
                    t,
                    end,
                    min_prec,
                    ExprView::Binary { left: Box::new(left), op, right: Box::new(right) },
                ),
                Err(e) => Err(e),
            }
        } else {
            Ok((left, pos))
        },
        None => Ok((left, pos)),
    }
}

/// The parameter names of a function definition, from `pos` on, and the
/// position where they end: identifiers separated by commas, up to the
/// first identifier that no comma follows or the first comma that no
/// identifier follows.
pub open spec fn params_at(t: Seq<TokenView>, pos: int) -> (Seq<Seq<char>>, int)
    decreases t.len() - pos,
{
    match token_at(t, pos) {
        Some(TokenView::Ident(name)) => {
            if token_at(t, pos + 1) == Some(TokenView::Comma) {
                let (rest, end) = params_at(t, pos + 2);
                (seq![name] + rest, end)
            } else {
                (seq![name], pos + 1)
            }
        },
        _ => (Seq::empty(), pos),
    }
}

/// Parameter names end at or after their start, inside the tokens.
pub proof fn lemma_params_at_bounds(t: Seq<TokenView>, pos: int)
    requires
        0 <= pos <= t.len(),
    ensures
        pos <= params_at(t, pos).1 <= t.len(),
    decreases t.len() - pos,
{
    if token_at(t, pos) is Some && token_at(t, pos)->0 is Ident && token_at(t, pos + 1) == Some(
        TokenView::Comma,
    ) {
        lemma_params_at_bounds(t, pos + 2);
    }
}

/// The `let` statement whose keyword stands at `pos`: the keyword, an
/// identifier, `=`, an expression.
pub open spec fn let_at(t: Seq<TokenView>, pos: int) -> Parsed<StmtView> {
    match token_at(t, pos + 1) {
        Some(TokenView::Ident(name)) => {
            if token_at(t, pos + 2) == Some(TokenView::Equals) {
                match expr_at(t, pos + 3) {
                    Ok((value, next)) => Ok((StmtView::Let(name, value), next)),
                    Err(e) => Err(e),
                }
            } else {
                Err(ParseError::UnexpectedToken)
            }
        },
        _ => Err(ParseError::UnexpectedToken),
    }
}

/// The `print` statement whose keyword stands at `pos`: the keyword and an
/// expression.
pub open spec fn print_at(t: Seq<TokenView>, pos: int) -> Parsed<StmtView> {
    match expr_at(t, pos + 1) {
        Ok((value, next)) => Ok((StmtView::Print(value), next)),
        Err(e) => Err(e),
    }
}

/// The expression statement at `pos`.
pub open spec fn expr_stmt_at(t: Seq<TokenView>, pos: int) -> Parsed<StmtView> {
    match expr_at(t, pos) {
        Ok((value, next)) => Ok((StmtView::Expr(value), next)),
        Err(e) => Err(e),
    }
}

/// The function definition whose keyword stands at `pos`: the keyword, an
/// identifier, `(`, parameter names, `)`, `{`, statements, `}`.
pub open spec fn func_def_at(t: Seq<TokenView>, pos: int) -> Parsed<StmtView>
    decreases t.len() - pos, 0int,
{
    match token_at(t, pos + 1) {
        Some(TokenView::Ident(name)) => match expect_at(t, pos + 2, TokenView::LParen) {
            Ok(open) => {
                let (params, end) = params_at(t, open);
                match expect_at(t, end, TokenView::RParen) {
                    Ok(close) => match expect_at(t, close, TokenView::LBrace) {
                        Ok(start) => {
                            proof {
                                lemma_params_at_bounds(t, open);
                            }
                            match block_at(t, start) {
                                Ok((body, stop)) => match expect_at(t, stop, TokenView::RBrace) {
                                    Ok(next) => Ok((StmtView::FuncDef { name, params, body }, next)),
                                    Err(e) => Err(e),
                                },
                                Err(e) => Err(e),
                            }
                        },
                        Err(e) => Err(e),
                    },
                    Err(e) => Err(e),
                }
            },
            Err(e) => Err(e),
        },
        _ => Err(ParseError::UnexpectedToken),
    }
}

/// The statement at `pos`, chosen by the token there: `let`, `func` and
/// `print` start the statements named after them, anything else an
/// expression statement.
pub open spec fn stmt_at(t: Seq<TokenView>, pos: int) -> Parsed<StmtView>
    decreases t.len() - pos, 1int,
{
    match token_at(t, pos) {
        Some(TokenView::Let) => let_at(t, pos),
        Some(TokenView::Func) => func_def_at(t, pos),
        Some(TokenView::Print) => print_at(t, pos),
        _ => expr_stmt_at(t, pos),
    }
}

/// The statements of a function body, from `pos` up to the `}` that closes
/// it, and the position of that `}`.
pub open spec fn block_at(t: Seq<TokenView>, pos: int) -> Parsed<Seq<StmtView>>
    decreases t.len() - pos, 2int,
{
    if token_at(t, pos) == Some(TokenView::RBrace) {
        Ok((Seq::empty(), pos))
    } else {
        match forward(t, pos, stmt_at(t, pos)) {
            Ok((stmt, end)) => with_nodes(seq![stmt], block_at(t, end)),
            Err(e) => Err(e),
        }
    }
}

/// `rest` with `prefix` put in front of its statements.
pub open spec fn with_stmts(prefix: Seq<StmtView>, rest: Result<Seq<StmtView>, ParseError>) -> Result<
    Seq<StmtView>,
    ParseError,
> {
    match rest {
        Ok(stmts) => Ok(prefix + stmts),
        Err(e) => Err(e),
    }
}

/// The statements from `pos` to the end of the tokens.
pub open spec fn program_at(t: Seq<TokenView>, pos: int) -> Result<Seq<StmtView>, ParseError>
    decreases t.len() - pos,
{
    if !(0 <= pos < t.len()) {
        Ok(Seq::empty())
    } else {
        match forward(t, pos, stmt_at(t, pos)) {
            Ok((stmt, end)) => with_stmts(seq![stmt], program_at(t, end)),
            Err(e) => Err(e),
        }
    }
}

/// Operators and operands that extend an expression end at or after
/// their start, inside the tokens.
pub proof fn lemma_climb_spans(t: Seq<TokenView>, pos: int, min_prec: int, left: ExprView)
    requires
        0 <= pos <= t.len(),
    ensures
        climb_at(t, pos, min_prec, left) matches Ok((_, next)) ==> pos <= next <= t.len(),
    decreases t.len() - pos,
{
    if let Some((prec, op)) = operator_at(t, pos) {
        if prec >= min_prec {
            if let Ok((right, end)) = forward(t, pos, binary_at(t, pos + 1, prec + 1)) {
                lemma_climb_spans(
                    t,
                    end,
                    min_prec,
                    ExprView::Binary { left: Box::new(left), op, right: Box::new(right) },
                );
            }
        }
    }
}

/// An expression spans at least one token and ends inside the tokens.
pub proof fn lemma_expr_spans(t: Seq<TokenView>, pos: int, min_prec: int)
    requires
        0 <= pos <= t.len(),
    ensures
        binary_at(t, pos, min_prec) matches Ok((_, next)) ==> pos < next <= t.len(),
        expr_at(t, pos) matches Ok((_, next)) ==> pos < next <= t.len(),
{
    if let Ok((left, end)) = forward(t, pos, primary_at(t, pos)) {
        lemma_climb_spans(t, end, min_prec, left);
        lemma_climb_spans(t, end, 0, left);
    }
}

/// The arguments of a call end at or after their start, inside the tokens.
pub proof fn lemma_args_span(t: Seq<TokenView>, pos: int)
    requires
        0 <= pos <= t.len(),
    ensures
        args_at(t, pos) matches Ok((_, next)) ==> pos <= next <= t.len(),
    decreases t.len() - pos,
{
    if token_at(t, pos) != Some(TokenView::RParen) {
        if let Ok((arg, end)) = forward(t, pos, expr_at(t, pos)) {
            if token_at(t, end) == Some(TokenView::Comma) {
                lemma_args_span(t, end + 1);
            }
        }
    }
}

/// A primary expression spans at least one token and ends inside the
/// tokens.
pub proof fn lemma_primary_spans(t: Seq<TokenView>, pos: int)
    requires
        0 <= pos <= t.len(),
    ensures
        primary_at(t, pos) matches Ok((_, next)) ==> pos < next <= t.len(),
{
    match token_at(t, pos) {
        Some(TokenView::Ident(name)) => {
            if token_at(t, pos + 1) == Some(TokenView::LParen) {
                lemma_args_span(t, pos + 2);
            }
        },
        Some(TokenView::LParen) => {
            lemma_expr_spans(t, pos + 1, 0);
        },
        _ => {},
    }
}

/// The statements of a function body end at or after their start, inside
/// the tokens.
pub proof fn lemma_block_spans(t: Seq<TokenView>, pos: int)
    requires
        0 <= pos <= t.len(),
    ensures
        block_at(t, pos) matches Ok((_, next)) ==> pos <= next <= t.len(),
    decreases t.len() - pos,
{
    if token_at(t, pos) != Some(TokenView::RBrace) {
        if let Ok((stmt, end)) = forward(t, pos, stmt_at(t, pos)) {
            lemma_block_spans(t, end);
        }
    }
}

/// A statement spans at least one token and ends inside the tokens.
pub proof fn lemma_stmt_spans(t: Seq<TokenView>, pos: int)
    requires
        0 <= pos <= t.len(),
    ensures
        stmt_at(t, pos) matches Ok((_, next)) ==> pos < next <= t.len(),
{
    match token_at(t, pos) {
        Some(TokenView::Let) => {
            if token_at(t, pos + 2) == Some(TokenView::Equals) {
                lemma_expr_spans(t, pos + 3, 0);
            }
        },
        Some(TokenView::Func) => {
            if let Ok(open) = expect_at(t, pos + 2, TokenView::LParen) {
                lemma_params_at_bounds(t, open);
                let (params, end) = params_at(t, open);
                if let Ok(close) = expect_at(t, end, TokenView::RParen) {
                    if let Ok(start) = expect_at(t, close, TokenView::LBrace) {
                        lemma_block_spans(t, start);
                    }
                }
            }
        },
        Some(TokenView::Print) => {
            lemma_expr_spans(t, pos + 1, 0);
        },
        _ => {
            lemma_expr_spans(t, pos, 0);
        },
    }
}

/// Every node spans at least one token and ends inside the tokens, so
/// [`forward`] changes none of the results it is applied to.
pub proof fn lemma_nodes_span_tokens(t: Seq<TokenView>, pos: int, min_prec: int)
    requires
        0 <= pos <= t.len(),
    ensures
        forward(t, pos, primary_at(t, pos)) == primary_at(t, pos),
        forward(t, pos, expr_at(t, pos)) == expr_at(t, pos),
        forward(t, pos, stmt_at(t, pos)) == stmt_at(t, pos),
        0 <= pos - 1 ==> forward(t, pos - 1, binary_at(t, pos, min_prec)) == binary_at(
            t,
            pos,
            min_prec,
        ),
{
    lemma_primary_spans(t, pos);
    lemma_expr_spans(t, pos, 0);
    lemma_expr_spans(t, pos, min_prec);
    lemma_stmt_spans(t, pos);
}

/// The positions at which the top-level statements from `pos` on start.
pub open spec fn statement_starts(t: Seq<TokenView>, pos: int) -> Seq<int>
    decreases t.len() - pos,
{
    if !(0 <= pos < t.len()) {
        Seq::empty()
    } else {
        match forward(t, pos, stmt_at(t, pos)) {
            Ok((_, end)) => seq![pos] + statement_starts(t, end),
            Err(_) => Seq::empty(),
        }
    }
}

/// Where the statement that starts at the `k`-th of `starts` ends: where
/// the next one starts, or at the end of the tokens.
pub open spec fn statement_end(t: Seq<TokenView>, starts: Seq<int>, k: int) -> int {
    if k + 1 < starts.len() {
        starts[k + 1]
    } else {
        t.len() as int
    }
}

/// The statements of a program stand in the order of the source, one for
/// each place where a statement starts: none is merged with another,
/// dropped or moved.
///
/// If the tokens from `pos` on are a program, its `k`-th statement is the
/// statement that starts at the `k`-th start and ends where the next one
/// starts; the first starts at `pos`, and the last ends with the tokens.
pub proof fn law_statements_follow_source(t: Seq<TokenView>, pos: int)
    requires
        0 <= pos <= t.len(),
        program_at(t, pos) is Ok,
    ensures
        ({
            let stmts = program_at(t, pos)->Ok_0;
            let starts = statement_starts(t, pos);
            &&& stmts.len() == starts.len()
            &&& stmts.len() > 0 ==> starts[0] == pos
            &&& stmts.len() == 0 ==> pos == t.len()
            &&& forall|k: int|
                0 <= k < stmts.len() ==> pos <= #[trigger] starts[k] < statement_end(t, starts, k)
                    <= t.len()
            &&& forall|k: int|
                0 <= k < stmts.len() ==> stmt_at(t, #[trigger] starts[k]) == Ok::<_, ParseError>(
                    (stmts[k], statement_end(t, starts, k)),
                )
        }),
    decreases t.len() - pos,
{
    if pos < t.len() {
        let (stmt, end) = forward(t, pos, stmt_at(t, pos))->Ok_0;
        law_statements_follow_source(t, end);
        let stmts = program_at(t, pos)->Ok_0;
        let starts = statement_starts(t, pos);
        let rest = program_at(t, end)->Ok_0;
        let rest_starts = statement_starts(t, end);
        assert(stmts =~= seq![stmt] + rest);
        assert(starts =~= seq![pos] + rest_starts);
        assert forall|k: int| 0 <= k < stmts.len() implies pos <= #[trigger] starts[k]
            < statement_end(t, starts, k) <= t.len() && stmt_at(t, starts[k]) == Ok::<
            _,
            ParseError,
        >((stmts[k], statement_end(t, starts, k))) by {
            if k == 0 {
                if rest.len() > 0 {
                    assert(starts[1] == rest_starts[0]);
                }
            } else {
                assert(starts[k] == rest_starts[k - 1]);
                assert(stmts[k] == rest[k - 1]);
                if k + 1 < starts.len() {
                    assert(starts[k + 1] == rest_starts[k]);
                }
                assert(statement_end(t, starts, k) == statement_end(t, rest_starts, k - 1));
            }
        }
    }
}

/// The token at which a statement starts decides what kind of statement
/// it is.
pub proof fn law_leading_token_decides(t: Seq<TokenView>, pos: int)
    requires
        stmt_at(t, pos) is Ok,
    ensures
        ({
            let stmt = stmt_at(t, pos)->Ok_0.0;
            match token_at(t, pos) {
                Some(TokenView::Let) => stmt is Let,
                Some(TokenView::Func) => stmt is FuncDef,
                Some(TokenView::Print) => stmt is Print,
                _ => stmt is Expr,
            }
        }),
{
}

/// What a function that parses an expression returned, with the position
/// it left, as a result over views.
pub open spec fn parsed_expr(r: Result<Expr, ParseError>, next: usize) -> Parsed<ExprView> {
    match r {
        Ok(e) => Ok((e@, next as int)),
        Err(e) => Err(e),
    }
}

/// What a function that parses a statement returned, with the position it
/// left, as a result over views.
pub open spec fn parsed_stmt(r: Result<Stmt, ParseError>, next: usize) -> Parsed<StmtView> {
    match r {
        Ok(s) => Ok((s@, next as int)),
        Err(e) => Err(e),
    }
}

/// Putting a node after a prefix, then more nodes, is putting the longer
/// prefix before those.
pub proof fn lemma_with_nodes_push<T>(prefix: Seq<T>, node: T, rest: Parsed<Seq<T>>)
    ensures
        with_nodes(prefix, with_nodes(seq![node], rest)) == with_nodes(prefix.push(node), rest),
        with_nodes(prefix, Ok((seq![node], 0int)))->Ok_0.0 == prefix.push(node),
{
    if let Ok((nodes, next)) = rest {
        assert(prefix + (seq![node] + nodes) =~= prefix.push(node) + nodes);
    }
    assert(prefix + seq![node] =~= prefix.push(node));
}

/// Putting a statement after a prefix, then more statements, is putting
/// the longer prefix before those.
pub proof fn lemma_with_stmts_push(
    prefix: Seq<StmtView>,
    stmt: StmtView,
    rest: Result<Seq<StmtView>, ParseError>,
)
    ensures
        with_stmts(prefix, with_stmts(seq![stmt], rest)) == with_stmts(prefix.push(stmt), rest),
{
    if let Ok(stmts) = rest {
        assert(prefix + (seq![stmt] + stmts) =~= prefix.push(stmt) + stmts);
    }
}

/// The token at `pos`, if there is one.
fn peek(tokens: &[Token], pos: usize) -> (r: Option<&Token>)
    ensures
        match r {
            Some(token) => pos < tokens.len() && *token == tokens@[pos as int] && token_at(
                tokens_view(tokens@),
                pos as int,
            ) == Some(token@),
            None => pos >= tokens.len() && token_at(tokens_view(tokens@), pos as int) is None,
        },
{
    if pos < tokens.len() {
        Some(&tokens[pos])
    } else {
        None
    }
}

/// Whether the token at `pos` is `expected`.
fn at(tokens: &[Token], pos: usize, expected: &Token) -> (r: bool)
    ensures
        r == (token_at(tokens_view(tokens@), pos as int) == Some(expected@)),
        r ==> pos < tokens.len(),
{
    match peek(tokens, pos) {
        Some(token) => *token == *expected,
        None => false,
    }
}

/// The binary operator at `pos`, with its precedence.
fn operator(tokens: &[Token], pos: usize) -> (r: Option<(u8, BinaryOp)>)
    ensures
        match r {
            Some((prec, op)) => operator_at(tokens_view(tokens@), pos as int) == Some(
                (prec as int, op),
            ) && 1 <= prec <= 2 && pos < tokens.len(),
            None => operator_at(tokens_view(tokens@), pos as int) is None,
        },
{
    match peek(tokens, pos) {
        Some(Token::Plus) => Some((1, BinaryOp::Add)),
        Some(Token::Minus) => Some((1, BinaryOp::Sub)),
        Some(Token::Star) => Some((2, BinaryOp::Mul)),
        Some(Token::Slash) => Some((2, BinaryOp::Div)),
        _ => None,
    }
}

/// Steps over the `expected` token at `pos`.
fn expect_token(tokens: &[Token], pos: &mut usize, expected: Token) -> (r: Result<(), ParseError>)
    requires
        *old(pos) <= tokens.len(),
    ensures
        match r {
            Ok(_) => expect_at(tokens_view(tokens@), *old(pos) as int, expected@) == Ok::<
                int,
                ParseError,
            >(*final(pos) as int) && *final(pos) == *old(pos) + 1 && *final(pos) <= tokens.len(),
            Err(e) => expect_at(tokens_view(tokens@), *old(pos) as int, expected@) == Err::<
                int,
                ParseError,
            >(e) && *final(pos) == *old(pos),
        },
{
    match peek(tokens, *pos) {
        Some(token) => {
            if *token == expected {
                *pos += 1;
                Ok(())
            } else {
                Err(ParseError::UnexpectedToken)
            }
        },
        None => Err(ParseError::UnexpectedEOF),
    }
}

/// Parses the primary expression at `pos`.
fn parse_primary(tokens: &[Token], pos: &mut usize) -> (r: Result<Expr, ParseError>)
    requires
        *old(pos) <= tokens.len(),
    ensures
        parsed_expr(r, *final(pos)) == primary_at(tokens_view(tokens@), *old(pos) as int),
        r is Ok ==> *old(pos) < *final(pos) <= tokens.len(),
    decreases tokens.len() - *old(pos), 0int,
{
    match peek(tokens, *pos) {
        Some(Token::Number(n)) => {
            *pos += 1;
            Ok(Expr::Number(*n))
        },
        Some(Token::String(s)) => {
            *pos += 1;
            Ok(Expr::String(s.clone()))
        },
        Some(Token::Ident(name)) => {
            let name = name.clone();
            *pos += 1;
            if at(tokens, *pos, &Token::LParen) {
                *pos += 1;
                let args = parse_args(tokens, pos)?;
                expect_token(tokens, pos, Token::RParen)?;
                Ok(Expr::Call { name, args })
            } else {
                Ok(Expr::Ident(name))
            }
        },
        Some(Token::LParen) => {
            *pos += 1;
            let inner = parse_expr(tokens, pos)?;
            expect_token(tokens, pos, Token::RParen)?;
            Ok(inner)
        },
        _ => Err(ParseError::UnexpectedToken),
    }
}

/// Parses the arguments of a call from `pos` on, and stops before the
/// token that ends them.
fn parse_args(tokens: &[Token], pos: &mut usize) -> (r: Result<Vec<Expr>, ParseError>)
    requires
        *old(pos) <= tokens.len(),
    ensures
        match r {
            Ok(args) => args_at(tokens_view(tokens@), *old(pos) as int) == Ok::<_, ParseError>(
                (exprs_view(args@), *final(pos) as int),
            ) && *old(pos) <= *final(pos) <= tokens.len(),
            Err(e) => args_at(tokens_view(tokens@), *old(pos) as int) == Err::<
                (Seq<ExprView>, int),
                _,
            >(e),
        },
    decreases tokens.len() - *old(pos), 3int,
{
    let ghost t = tokens_view(tokens@);
    let ghost start = *pos as int;
    let mut args: Vec<Expr> = Vec::new();
    assert(exprs_view(args@) =~= Seq::empty());
    loop
        invariant
            start <= *pos <= tokens.len(),
            start == *old(pos),
            t == tokens_view(tokens@),
            args_at(t, start) == with_nodes(exprs_view(args@), args_at(t, *pos as int)),
        decreases tokens.len() - *pos,
    {
        if at(tokens, *pos, &Token::RParen) {
            assert(exprs_view(args@) + Seq::empty() =~= exprs_view(args@));
            return Ok(args);
        }
        let arg = parse_expr(tokens, pos)?;
        proof {
            lemma_exprs_view_push(args@, arg);
            lemma_with_nodes_push(exprs_view(args@), arg@, args_at(t, *pos + 1));
        }
        args.push(arg);
        if at(tokens, *pos, &Token::Comma) {
            *pos += 1;
        } else {
            return Ok(args);
        }
    }
}

/// Parses the expression at `pos`.
fn parse_expr(tokens: &[Token], pos: &mut usize) -> (r: Result<Expr, ParseError>)
    requires
        *old(pos) <= tokens.len(),
    ensures
        parsed_expr(r, *final(pos)) == expr_at(tokens_view(tokens@), *old(pos) as int),
        r is Ok ==> *old(pos) < *final(pos) <= tokens.len(),
    decreases tokens.len() - *old(pos), 2int,
{
    parse_binary_expr(tokens, pos, 0)
}

/// Parses the longest expression at `pos` whose operators outside
/// parentheses all have at least the precedence `min_prec`.
fn parse_binary_expr(tokens: &[Token], pos: &mut usize, min_prec: u8) -> (r: Result<
    Expr,
    ParseError,
>)
    requires
        *old(pos) <= tokens.len(),
        min_prec <= 3,
    ensures
        parsed_expr(r, *final(pos)) == binary_at(
            tokens_view(tokens@),
            *old(pos) as int,
            min_prec as int,
        ),
        r is Ok ==> *old(pos) < *final(pos) <= tokens.len(),
    decreases tokens.len() - *old(pos), 1int,
{
    let ghost t = tokens_view(tokens@);
    let ghost start = *pos as int;
    let mut left = parse_primary(tokens, pos)?;
    loop
        invariant
            start < *pos <= tokens.len(),
            start == *old(pos),
            t == tokens_view(tokens@),
            min_prec <= 3,
            binary_at(t, start, min_prec as int) == climb_at(
                t,
                *pos as int,
                min_prec as int,
                left@,
            ),
        decreases tokens.len() - *pos,
    {
        let (prec, op) = match operator(tokens, *pos) {
            Some(found) => found,
            None => {
                return Ok(left);
            },
        };
        if prec < min_prec {
            return Ok(left);
        }
        *pos += 1;
        let right = parse_binary_expr(tokens, pos, prec + 1)?;
        left = Expr::Binary { left: Box::new(left), op, right: Box::new(right) };
    }
}

/// Parses the `let` statement whose keyword stands at `pos`.
fn parse_let_stmt(tokens: &[Token], pos: &mut usize) -> (r: Result<Stmt, ParseError>)
    requires
        *old(pos) < tokens.len(),
    ensures
        parsed_stmt(r, *final(pos)) == let_at(tokens_view(tokens@), *old(pos) as int),
        r is Ok ==> *old(pos) < *final(pos) <= tokens.len(),
{
    *pos += 1;
    match peek(tokens, *pos) {
        Some(Token::Ident(name)) => {
            let name = name.clone();
            *pos += 1;
            if at(tokens, *pos, &Token::Equals) {
                *pos += 1;
                let value = parse_expr(tokens, pos)?;
                Ok(Stmt::Let(name, value))
            } else {
                Err(ParseError::UnexpectedToken)
            }
        },
        _ => Err(ParseError::UnexpectedToken),
    }
}

/// Parses the `print` statement whose keyword stands at `pos`.
fn parse_print_stmt(tokens: &[Token], pos: &mut usize) -> (r: Result<Stmt, ParseError>)
    requires
        *old(pos) < tokens.len(),
    ensures
        parsed_stmt(r, *final(pos)) == print_at(tokens_view(tokens@), *old(pos) as int),
        r is Ok ==> *old(pos) < *final(pos) <= tokens.len(),
{
    *pos += 1;
    let value = parse_expr(tokens, pos)?;
    Ok(Stmt::Print(value))
}

/// Parses the expression statement at `pos`.
fn parse_expr_stmt(tokens: &[Token], pos: &mut usize) -> (r: Result<Stmt, ParseError>)
    requires
        *old(pos) <= tokens.len(),
    ensures
        parsed_stmt(r, *final(pos)) == expr_stmt_at(tokens_view(tokens@), *old(pos) as int),
        r is Ok ==> *old(pos) < *final(pos) <= tokens.len(),
{
    let value = parse_expr(tokens, pos)?;
    Ok(Stmt::Expr(value))
}

/// Parses the parameter names of a function definition from `pos` on.
fn parse_params(tokens: &[Token], pos: &mut usize) -> (params: Vec<String>)
    requires
        *old(pos) <= tokens.len(),
    ensures
        params_at(tokens_view(tokens@), *old(pos) as int) == (
            names_view(params@),
            *final(pos) as int,
        ),
        *old(pos) <= *final(pos) <= tokens.len(),
{
    let ghost t = tokens_view(tokens@);
    let ghost start = *pos as int;
    let mut params: Vec<String> = Vec::new();
    assert(names_view(params@) =~= Seq::empty());
    loop
        invariant
            start <= *pos <= tokens.len(),
            start == *old(pos),
            t == tokens_view(tokens@),
            params_at(t, start) == (
                names_view(params@) + params_at(t, *pos as int).0,
                params_at(t, *pos as int).1,
            ),
        decreases tokens.len() - *pos,
    {
        match peek(tokens, *pos) {
            Some(Token::Ident(name)) => {
                let ghost before = names_view(params@);
                proof {
                    lemma_names_view_push(params@, *name);
                }
                params.push(name.clone());
                *pos += 1;
                if at(tokens, *pos, &Token::Comma) {
                    *pos += 1;
                    assert(before + (seq![name@] + params_at(t, *pos as int).0) =~= before.push(
                        name@,
                    ) + params_at(t, *pos as int).0);
                } else {
                    assert(before + seq![name@] =~= before.push(name@));
                    return params;
                }
            },
            _ => {
                assert(names_view(params@) + Seq::empty() =~= names_view(params@));
                return params;
            },
        }
    }
}

/// Parses the function definition whose keyword stands at `pos`.
#[verifier::loop_isolation(false)]
fn parse_func_def(tokens: &[Token], pos: &mut usize) -> (r: Result<Stmt, ParseError>)
    requires
        *old(pos) < tokens.len(),
    ensures
        parsed_stmt(r, *final(pos)) == func_def_at(tokens_view(tokens@), *old(pos) as int),
        r is Ok ==> *old(pos) < *final(pos) <= tokens.len(),
    decreases tokens.len() - *old(pos), 0int,
{
    let ghost t = tokens_view(tokens@);
    let ghost keyword = *pos as int;
    *pos += 1;
    let name = match peek(tokens, *pos) {
        Some(Token::Ident(name)) => name.clone(),
        _ => {
            return Err(ParseError::UnexpectedToken);
        },
    };
    *pos += 1;
    expect_token(tokens, pos, Token::LParen)?;
    let params = parse_params(tokens, pos);
    expect_token(tokens, pos, Token::RParen)?;
    expect_token(tokens, pos, Token::LBrace)?;
    let ghost start = *pos as int;
    let mut body: Vec<Stmt> = Vec::new();
    assert(stmts_view(body@) =~= Seq::empty());
    while !at(tokens, *pos, &Token::RBrace)
        invariant
            keyword < start <= *pos <= tokens.len(),
            keyword == *old(pos),
            t == tokens_view(tokens@),
            block_at(t, start) == with_nodes(stmts_view(body@), block_at(t, *pos as int)),
        decreases tokens.len() - *pos,
    {
        let stmt = parse_stmt(tokens, pos)?;
        proof {
            lemma_stmts_view_push(body@, stmt);
            lemma_with_nodes_push(stmts_view(body@), stmt@, block_at(t, *pos as int));
        }
        body.push(stmt);
    }
    assert(stmts_view(body@) + Seq::empty() =~= stmts_view(body@));
    expect_token(tokens, pos, Token::RBrace)?;
    Ok(Stmt::FuncDef { name, params, body })
}

/// Parses the statement at `pos`.
fn parse_stmt(tokens: &[Token], pos: &mut usize) -> (r: Result<Stmt, ParseError>)
    requires
        *old(pos) <= tokens.len(),
    ensures
        parsed_stmt(r, *final(pos)) == stmt_at(tokens_view(tokens@), *old(pos) as int),
        r is Ok ==> *old(pos) < *final(pos) <= tokens.len(),
    decreases tokens.len() - *old(pos), 1int,
{
    match peek(tokens, *pos) {
        Some(Token::Let) => parse_let_stmt(tokens, pos),
        Some(Token::Func) => parse_func_def(tokens, pos),
        Some(Token::Print) => parse_print_stmt(tokens, pos),
        _ => parse_expr_stmt(tokens, pos),
    }
}

/// The program that `tokens` spell, or the first error in them.
///
/// The result is what [`program_at`] defines for the whole sequence.
pub fn parse(tokens: &[Token]) -> (r: Result<Program, ParseError>)
    ensures
        match r {
            Ok(program) => program_at(tokens_view(tokens@), 0) == Ok::<_, ParseError>(program@),
            Err(e) => program_at(tokens_view(tokens@), 0) == Err::<Seq<StmtView>, _>(e),
        },
{
    let ghost t = tokens_view(tokens@);
    let mut pos: usize = 0;
    let mut statements: Vec<Stmt> = Vec::new();
    assert(stmts_view(statements@) =~= Seq::empty());
    while pos < tokens.len()
        invariant
            pos <= tokens.len(),
            t == tokens_view(tokens@),
            program_at(t, 0) == with_stmts(stmts_view(statements@), program_at(t, pos as int)),
        decreases tokens.len() - pos,
    {
        match parse_stmt(tokens, &mut pos) {
            Ok(stmt) => {
                proof {
                    lemma_stmts_view_push(statements@, stmt);
                    lemma_with_stmts_push(
                        stmts_view(statements@),
                        stmt@,
                        program_at(t, pos as int),
                    );
                }
                statements.push(stmt);
            },
            Err(e) => {
                return Err(e);
            },
        }
    }
    assert(stmts_view(statements@) + Seq::empty() =~= stmts_view(statements@));
    Ok(Program { statements })
}

} // verus!
