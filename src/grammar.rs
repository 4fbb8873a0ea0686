//! The grammar as spec functions: what the recursive-descent parser returns
//! for a token sequence, and where it stops.
use vstd::prelude::*;
use crate::token::{Token, TokenType};
use crate::expr::{Expr, Literal};
use crate::stmt::StmtView;

verus! {

/// What went wrong when a parse stopped.
#[derive(Debug, Clone, Copy, PartialEq, Eq, Structural)]
pub enum ParseErrorKind {
    ExpectExpression,
    ExpectRightParen,
    ExpectVariableName,
    ExpectSemicolonAfterVariable,
    ExpectSemicolonAfterValue,
    ExpectSemicolonAfterExpression,
    ExpectRightBrace,
    InvalidAssignmentTarget,
}

pub open spec fn parse_message(k: ParseErrorKind) -> Seq<char> {
    match k {
        ParseErrorKind::ExpectExpression => "Expect expression."@,
        ParseErrorKind::ExpectRightParen => "Expect ')' after expression."@,
        ParseErrorKind::ExpectVariableName => "Expect variable name."@,
        ParseErrorKind::ExpectSemicolonAfterVariable => "Expect ';' after variable declaration."@,
        ParseErrorKind::ExpectSemicolonAfterValue => "Expect ';' after value."@,
        ParseErrorKind::ExpectSemicolonAfterExpression => "Expect ';' after expression."@,
        ParseErrorKind::ExpectRightBrace => "Expect '}' after block."@,
        ParseErrorKind::InvalidAssignmentTarget => "Invalid assignment target."@,
    }
}

impl ParseErrorKind {
    pub fn message(&self) -> (r: &'static str)
        ensures
            r@ == parse_message(*self),
    {
        match self {
            ParseErrorKind::ExpectExpression => "Expect expression.",
            ParseErrorKind::ExpectRightParen => "Expect ')' after expression.",
            ParseErrorKind::ExpectVariableName => "Expect variable name.",
            ParseErrorKind::ExpectSemicolonAfterVariable => "Expect ';' after variable declaration.",
            ParseErrorKind::ExpectSemicolonAfterValue => "Expect ';' after value.",
            ParseErrorKind::ExpectSemicolonAfterExpression => "Expect ';' after expression.",
            ParseErrorKind::ExpectRightBrace => "Expect '}' after block.",
            ParseErrorKind::InvalidAssignmentTarget => "Invalid assignment target.",
        }
    }
}

/// A parse error with the line of the token at which it was found.
#[derive(Debug, Clone, Copy, PartialEq, Eq, Structural)]
pub struct ParseError {
    pub kind: ParseErrorKind,
    pub line: usize,
}

/// A token sequence the parser accepts: the end marker closes it.
pub open spec fn valid_tokens(ts: Seq<Token>) -> bool {
    ts.len() > 0 && ts.last().token_type == TokenType::EOF
}

pub open spec fn kind_at(ts: Seq<Token>, i: int) -> TokenType {
    if 0 <= i < ts.len() {
        ts[i].token_type
    } else {
        TokenType::EOF
    }
}

pub open spec fn line_at(ts: Seq<Token>, i: int) -> usize {
    if 0 <= i < ts.len() {
        ts[i].line
    } else {
        0
    }
}

/// The token at `i` has kind `k`; the end marker never matches.
pub open spec fn check(ts: Seq<Token>, i: int, k: TokenType) -> bool {
    kind_at(ts, i) != TokenType::EOF && kind_at(ts, i) == k
}

pub open spec fn fail<T>(ts: Seq<Token>, i: int, kind: ParseErrorKind) -> Result<(T, int), ParseError> {
    Err(ParseError { kind, line: line_at(ts, i) })
}

/// The operators of one rung of the binary ladder: 4 equality, 3 comparison,
/// 2 term, 1 factor.
pub open spec fn level_op(level: int, k: TokenType) -> bool {
    if level >= 4 {
        k == TokenType::BANG_EQUAL || k == TokenType::EQUAL_EQUAL
    } else if level == 3 {
        k == TokenType::GREATER || k == TokenType::GREATER_EQUAL || k == TokenType::LESS || k
            == TokenType::LESS_EQUAL
    } else if level == 2 {
        k == TokenType::MINUS || k == TokenType::PLUS
    } else {
        k == TokenType::STAR || k == TokenType::SLASH
    }
}

/// The text a literal token decodes to.
pub open spec fn literal_text(t: Token) -> String {
    match t.literal {
        Some(x) => x,
        None => t.lexeme,
    }
}

/// expression → assignment
pub open spec fn expression(ts: Seq<Token>, i: int) -> Result<(Expr, int), ParseError>
    decreases ts.len() - i, 8int,
{
    assignment(ts, i)
}

/// assignment → IDENTIFIER "=" assignment | equality
pub open spec fn assignment(ts: Seq<Token>, i: int) -> Result<(Expr, int), ParseError>
    decreases ts.len() - i, 7int,
{
    match binary(ts, i, 4) {
        Err(e) => Err(e),
        Ok((target, j)) => {
            if check(ts, j, TokenType::EQUAL) && i <= j {
                match assignment(ts, j + 1) {
                    Err(e) => Err(e),
                    Ok((value, k)) => match target {
                        Expr::Variable(name) => Ok((Expr::Assign { name, value: Box::new(value) }, k)),
                        _ => fail(ts, j, ParseErrorKind::InvalidAssignmentTarget),
                    },
                }
            } else {
                Ok((target, j))
            }
        },
    }
}

/// One rung of the ladder: operand (op operand)*, folded to the left.
pub open spec fn binary(ts: Seq<Token>, i: int, level: int) -> Result<(Expr, int), ParseError>
    decreases ts.len() - i, if level <= 1 { 3int } else { level + 2 },
{
    let first = if level <= 1 {
        unary(ts, i)
    } else {
        binary(ts, i, level - 1)
    };
    match first {
        Err(e) => Err(e),
        Ok((left, j)) => if i <= j <= ts.len() {
            binary_rest(ts, j, level, left)
        } else {
            fail(ts, j, ParseErrorKind::ExpectExpression)
        },
    }
}

pub open spec fn binary_rest(ts: Seq<Token>, j: int, level: int, left: Expr) -> Result<(Expr, int), ParseError>
    decreases ts.len() - j, 0int,
{
    if kind_at(ts, j) != TokenType::EOF && level_op(level, kind_at(ts, j)) && 0 <= j {
        let right = if level <= 1 {
            unary(ts, j + 1)
        } else {
            binary(ts, j + 1, level - 1)
        };
        match right {
            Err(e) => Err(e),
            Ok((r, k)) => if j < k <= ts.len() {
                binary_rest(ts, k, level, Expr::Binary { left: Box::new(left), operator: ts[j], right: Box::new(r) })
            } else {
                fail(ts, k, ParseErrorKind::ExpectExpression)
            },
        }
    } else {
        Ok((left, j))
    }
}

/// unary → ("!" | "-") unary | primary
pub open spec fn unary(ts: Seq<Token>, i: int) -> Result<(Expr, int), ParseError>
    decreases ts.len() - i, 2int,
{
    if (check(ts, i, TokenType::BANG) || check(ts, i, TokenType::MINUS)) && 0 <= i {
        match unary(ts, i + 1) {
            Err(e) => Err(e),
            Ok((r, k)) => Ok((Expr::Unary { operator: ts[i], right: Box::new(r) }, k)),
        }
    } else {
        primary(ts, i)
    }
}

/// The kinds that can start a primary expression.
pub open spec fn starts_primary(k: TokenType) -> bool {
    k == TokenType::NUMBER || k == TokenType::STRING || k == TokenType::TRUE || k == TokenType::FALSE || k
        == TokenType::NIL || k == TokenType::IDENTIFIER || k == TokenType::LEFT_PAREN
}

/// primary → NUMBER | STRING | "true" | "false" | "nil" | IDENTIFIER | "(" expression ")"
pub open spec fn primary(ts: Seq<Token>, i: int) -> Result<(Expr, int), ParseError>
    decreases ts.len() - i, 1int,
{
    if check(ts, i, TokenType::NUMBER) && 0 <= i {
        Ok((Expr::Literal(Literal::Number(literal_text(ts[i]))), i + 1))
    } else if check(ts, i, TokenType::STRING) && 0 <= i {
        Ok((Expr::Literal(Literal::Str(literal_text(ts[i]))), i + 1))
    } else if check(ts, i, TokenType::TRUE) {
        Ok((Expr::Literal(Literal::Bool(true)), i + 1))
    } else if check(ts, i, TokenType::FALSE) {
        Ok((Expr::Literal(Literal::Bool(false)), i + 1))
    } else if check(ts, i, TokenType::NIL) {
        Ok((Expr::Literal(Literal::Nil), i + 1))
    } else if check(ts, i, TokenType::IDENTIFIER) && 0 <= i {
        Ok((Expr::Variable(ts[i]), i + 1))
    } else if check(ts, i, TokenType::LEFT_PAREN) && 0 <= i {
        match expression(ts, i + 1) {
            Err(e) => Err(e),
            Ok((e, j)) => if check(ts, j, TokenType::RIGHT_PAREN) {
                Ok((Expr::Grouping(Box::new(e)), j + 1))
            } else {
                fail(ts, j, ParseErrorKind::ExpectRightParen)
            },
        }
    } else {
        fail(ts, i, ParseErrorKind::ExpectExpression)
    }
}

/// `expression ";"`, with the error for a missing semicolon.
pub open spec fn expr_then_semicolon(ts: Seq<Token>, i: int, missing: ParseErrorKind) -> Result<(Expr, int), ParseError>
    decreases ts.len() - i, 9int,
{
    match expression(ts, i) {
        Err(e) => Err(e),
        Ok((e, j)) => if check(ts, j, TokenType::SEMICOLON) {
            Ok((e, j + 1))
        } else {
            fail(ts, j, missing)
        },
    }
}

/// "var" IDENTIFIER ("=" expression)? ";", after the "var".
pub open spec fn var_declaration(ts: Seq<Token>, i: int) -> Result<(StmtView, int), ParseError>
    decreases ts.len() - i, 10int,
{
    if check(ts, i, TokenType::IDENTIFIER) && 0 <= i {
        if check(ts, i + 1, TokenType::EQUAL) {
            match expr_then_semicolon(ts, i + 2, ParseErrorKind::ExpectSemicolonAfterVariable) {
                Err(e) => Err(e),
                Ok((e, j)) => Ok((StmtView::Var(ts[i], Some(e)), j)),
            }
        } else if check(ts, i + 1, TokenType::SEMICOLON) {
            Ok((StmtView::Var(ts[i], None), i + 2))
        } else {
            fail(ts, i + 1, ParseErrorKind::ExpectSemicolonAfterVariable)
        }
    } else {
        fail(ts, i, ParseErrorKind::ExpectVariableName)
    }
}

/// statement → "print" expression ";" | "{" declaration* "}" | expression ";"
pub open spec fn statement(ts: Seq<Token>, i: int) -> Result<(StmtView, int), ParseError>
    decreases ts.len() - i, 11int,
{
    if check(ts, i, TokenType::PRINT) {
        match expr_then_semicolon(ts, i + 1, ParseErrorKind::ExpectSemicolonAfterValue) {
            Err(e) => Err(e),
            Ok((e, j)) => Ok((StmtView::Print(e), j)),
        }
    } else if check(ts, i, TokenType::LEFT_BRACE) {
        match block(ts, i + 1, Seq::empty()) {
            Err(e) => Err(e),
            Ok((b, j)) => Ok((StmtView::Block(b), j)),
        }
    } else {
        match expr_then_semicolon(ts, i, ParseErrorKind::ExpectSemicolonAfterExpression) {
            Err(e) => Err(e),
            Ok((e, j)) => Ok((StmtView::Expression(e), j)),
        }
    }
}

/// declaration → "var" IDENTIFIER ("=" expression)? ";" | statement
pub open spec fn declaration(ts: Seq<Token>, i: int) -> Result<(StmtView, int), ParseError>
    decreases ts.len() - i, 12int,
{
    if check(ts, i, TokenType::VAR) {
        var_declaration(ts, i + 1)
    } else {
        statement(ts, i)
    }
}

/// The declarations of a block after its "{", with those already read in
/// `acc`, up to and including the closing "}".
pub open spec fn block(ts: Seq<Token>, i: int, acc: Seq<StmtView>) -> Result<(Seq<StmtView>, int), ParseError>
    decreases ts.len() - i, 13int,
{
    if check(ts, i, TokenType::RIGHT_BRACE) {
        Ok((acc, i + 1))
    } else if kind_at(ts, i) == TokenType::EOF {
        fail(ts, i, ParseErrorKind::ExpectRightBrace)
    } else {
        match declaration(ts, i) {
            Err(e) => Err(e),
            Ok((s, j)) => if i < j <= ts.len() {
                block(ts, j, acc.push(s))
            } else {
                fail(ts, j, ParseErrorKind::ExpectExpression)
            },
        }
    }
}

/// The declarations from `i` to the end marker, with those already read in `acc`.
pub open spec fn program(ts: Seq<Token>, i: int, acc: Seq<StmtView>) -> Result<Seq<StmtView>, ParseError>
    decreases ts.len() - i,
{
    if kind_at(ts, i) == TokenType::EOF {
        Ok(acc)
    } else {
        match declaration(ts, i) {
            Err(e) => Err(e),
            Ok((s, j)) => if i < j <= ts.len() {
                program(ts, j, acc.push(s))
            } else {
                Err(ParseError { kind: ParseErrorKind::ExpectExpression, line: line_at(ts, j) })
            },
        }
    }
}

} // verus!
