//! The recursive-descent parser: one function per rule of the grammar, each
//! proved to return what `grammar` says and to stop where it says.
use vstd::prelude::*;
use crate::token::{Token, TokenType};
use crate::expr::{Expr, Literal};
use crate::stmt::{Stmt, StmtView, stmt_views, lemma_stmt_views_push};
use crate::grammar::{
    ParseError, ParseErrorKind, valid_tokens, kind_at, line_at, check, level_op, literal_text, expression,
    assignment, binary, binary_rest, unary, primary, expr_then_semicolon, var_declaration, statement,
    declaration, block, program, starts_primary,
};

verus! {

/// The parser's result for an expression rule, against the grammar's.
pub open spec fn expr_outcome(r: Result<Expr, ParseError>, pos: int, s: Result<(Expr, int), ParseError>) -> bool {
    match (r, s) {
        (Ok(e), Ok((se, j))) => e == se && pos == j,
        (Err(x), Err(y)) => x == y,
        _ => false,
    }
}

/// The parser's result for a statement rule, against the grammar's.
pub open spec fn stmt_outcome(r: Result<Stmt, ParseError>, pos: int, s: Result<(StmtView, int), ParseError>) -> bool {
    match (r, s) {
        (Ok(st), Ok((sv, j))) => st.view() == sv && pos == j,
        (Err(x), Err(y)) => x == y,
        _ => false,
    }
}

pub proof fn lemma_block_view(v: Vec<Stmt>)
    ensures
        Stmt::Block(v).view() == StmtView::Block(stmt_views(v@)),
{
    let b = match Stmt::Block(v).view() {
        StmtView::Block(b) => b,
        _ => Seq::empty(),
    };
    assert(b.len() == v@.len());
    assert forall|i: int| 0 <= i < b.len() implies b[i] == stmt_views(v@)[i] by {}
    assert(b =~= stmt_views(v@));
}

fn level_op_of(level: u8, k: TokenType) -> (r: bool)
    ensures
        r == level_op(level as int, k),
{
    if level >= 4 {
        k == TokenType::BANG_EQUAL || k == TokenType::EQUAL_EQUAL
    } else if level == 3 {
        k == TokenType::GREATER || k == TokenType::GREATER_EQUAL || k == TokenType::LESS || k
            == TokenType::LESS_EQUAL
    } else if level == 2 {
        k == TokenType::MINUS || k == TokenType::PLUS
    } else {
        k == TokenType::STAR || k == TokenType::SLASH
    }
}

fn literal_text_of(t: &Token) -> (r: String)
    ensures
        r == literal_text(*t),
{
    match &t.literal {
        Some(x) => x.clone(),
        None => t.lexeme.clone(),
    }
}

/// Parses one token sequence, closed by the end marker.
pub struct Parser {
    tokens: Vec<Token>,
    current: usize,
}

impl Parser {
    pub closed spec fn tokens_view(&self) -> Seq<Token> {
        self.tokens@
    }

    pub closed spec fn position(&self) -> int {
        self.current as int
    }

    pub closed spec fn wf(&self) -> bool {
        valid_tokens(self.tokens@) && self.current < self.tokens@.len()
    }

    pub fn new(tokens: Vec<Token>) -> (r: Parser)
        requires
            valid_tokens(tokens@),
        ensures
            r.wf(),
            r.tokens_view() == tokens@,
            r.position() == 0,
    {
        Parser { tokens, current: 0 }
    }

    /// Parses one expression from the current position.
    pub fn parse_expression(&mut self) -> (r: Result<Expr, ParseError>)
        requires
            old(self).wf(),
        ensures
            final(self).wf(),
            final(self).tokens_view() == old(self).tokens_view(),
            expr_outcome(r, final(self).position(), expression(old(self).tokens_view(), old(self).position())),
    {
        self.expression()
    }

    /// Parses declarations up to the end marker; the first error ends the parse.
    pub fn parse_statements(&mut self) -> (r: Result<Vec<Stmt>, ParseError>)
        requires
            old(self).wf(),
        ensures
            final(self).wf(),
            final(self).tokens_view() == old(self).tokens_view(),
            match (r, program(old(self).tokens_view(), old(self).position(), Seq::empty())) {
                (Ok(v), Ok(sv)) => stmt_views(v@) == sv,
                (Err(x), Err(y)) => x == y,
                _ => false,
            },
    {
        let ghost ts = self.tokens@;
        let ghost i0 = self.current as int;
        let mut statements: Vec<Stmt> = Vec::new();
        assert(stmt_views(statements@) =~= Seq::<StmtView>::empty());
        while !self.is_at_end()
            invariant
                self.wf(),
                self.tokens@ == ts,
                self.tokens == old(self).tokens,
                ts == old(self).tokens@,
                i0 == old(self).current,
                program(ts, self.current as int, stmt_views(statements@)) == program(ts, i0, Seq::empty()),
            decreases ts.len() - self.current,
        {
            let s = match self.declaration() {
                Ok(s) => s,
                Err(e) => return Err(e),
            };
            proof {
                lemma_stmt_views_push(statements@, s);
            }
            statements.push(s);
        }
        Ok(statements)
    }

    fn is_at_end(&self) -> (r: bool)
        requires
            self.wf(),
        ensures
            r == (kind_at(self.tokens@, self.current as int) == TokenType::EOF),
    {
        self.tokens[self.current].token_type == TokenType::EOF
    }

    fn check(&self, k: TokenType) -> (r: bool)
        requires
            self.wf(),
        ensures
            r == check(self.tokens@, self.current as int, k),
    {
        let t = self.tokens[self.current].token_type;
        t != TokenType::EOF && t == k
    }

    /// Consumes the current token, which is not the end marker.
    fn advance(&mut self) -> (r: Token)
        requires
            old(self).wf(),
            kind_at(old(self).tokens@, old(self).current as int) != TokenType::EOF,
        ensures
            final(self).wf(),
            final(self).tokens == old(self).tokens,
            final(self).current == old(self).current + 1,
            r == old(self).tokens@[old(self).current as int],
    {
        proof {
            assert(self.tokens@.len() == self.tokens.len());
        }
        let t = self.tokens[self.current].duplicate();
        self.current = self.current + 1;
        t
    }

    fn error(&self, kind: ParseErrorKind) -> (r: ParseError)
        requires
            self.wf(),
        ensures
            r == (ParseError { kind, line: line_at(self.tokens@, self.current as int) }),
    {
        ParseError { kind, line: self.tokens[self.current].line }
    }

    fn expression(&mut self) -> (r: Result<Expr, ParseError>)
        requires
            old(self).wf(),
        ensures
            final(self).wf(),
            final(self).tokens == old(self).tokens,
            expr_outcome(r, final(self).current as int, expression(old(self).tokens@, old(self).current as int)),
            r is Ok ==> final(self).current > old(self).current,
        decreases old(self).tokens@.len() - old(self).current, 8int,
    {
        self.assignment()
    }

    fn assignment(&mut self) -> (r: Result<Expr, ParseError>)
        requires
            old(self).wf(),
        ensures
            final(self).wf(),
            final(self).tokens == old(self).tokens,
            expr_outcome(r, final(self).current as int, assignment(old(self).tokens@, old(self).current as int)),
            r is Ok ==> final(self).current > old(self).current,
        decreases old(self).tokens@.len() - old(self).current, 7int,
    {
        let target = match self.binary(4) {
            Ok(e) => e,
            Err(e) => return Err(e),
        };
        if self.check(TokenType::EQUAL) {
            let equals = self.advance();
            let value = match self.assignment() {
                Ok(v) => v,
                Err(e) => return Err(e),
            };
            match target {
                Expr::Variable(name) => Ok(Expr::Assign { name, value: Box::new(value) }),
                _ => Err(ParseError { kind: ParseErrorKind::InvalidAssignmentTarget, line: equals.line }),
            }
        } else {
            Ok(target)
        }
    }

    /// One rung of the binary ladder (4 equality, 3 comparison, 2 term, 1 factor).
    fn binary(&mut self, level: u8) -> (r: Result<Expr, ParseError>)
        requires
            old(self).wf(),
            1 <= level <= 4,
        ensures
            final(self).wf(),
            final(self).tokens == old(self).tokens,
            expr_outcome(r, final(self).current as int, binary(old(self).tokens@, old(self).current as int, level as int)),
            r is Ok ==> final(self).current > old(self).current,
        decreases old(self).tokens@.len() - old(self).current, if level <= 1 { 3int } else { level + 2 },
    {
        let ghost ts = self.tokens@;
        let ghost i0 = self.current as int;
        let mut expr = if level <= 1 {
            match self.unary() {
                Ok(e) => e,
                Err(e) => return Err(e),
            }
        } else {
            match self.binary(level - 1) {
                Ok(e) => e,
                Err(e) => return Err(e),
            }
        };
        while !self.is_at_end() && level_op_of(level, self.tokens[self.current].token_type)
            invariant
                self.wf(),
                self.tokens@ == ts,
                self.tokens == old(self).tokens,
                ts == old(self).tokens@,
                i0 == old(self).current,
                1 <= level <= 4,
                self.current > i0,
                binary_rest(ts, self.current as int, level as int, expr) == binary(ts, i0, level as int),
            decreases ts.len() - self.current,
        {
            let operator = self.advance();
            let right = if level <= 1 {
                match self.unary() {
                    Ok(e) => e,
                    Err(e) => return Err(e),
                }
            } else {
                match self.binary(level - 1) {
                    Ok(e) => e,
                    Err(e) => return Err(e),
                }
            };
            expr = Expr::Binary { left: Box::new(expr), operator, right: Box::new(right) };
        }
        Ok(expr)
    }

    fn unary(&mut self) -> (r: Result<Expr, ParseError>)
        requires
            old(self).wf(),
        ensures
            final(self).wf(),
            final(self).tokens == old(self).tokens,
            expr_outcome(r, final(self).current as int, unary(old(self).tokens@, old(self).current as int)),
            r is Ok ==> final(self).current > old(self).current,
        decreases old(self).tokens@.len() - old(self).current, 2int,
    {
        if self.check(TokenType::BANG) || self.check(TokenType::MINUS) {
            let operator = self.advance();
            let right = match self.unary() {
                Ok(e) => e,
                Err(e) => return Err(e),
            };
            Ok(Expr::Unary { operator, right: Box::new(right) })
        } else {
            self.primary()
        }
    }

    fn primary(&mut self) -> (r: Result<Expr, ParseError>)
        requires
            old(self).wf(),
        ensures
            final(self).wf(),
            final(self).tokens == old(self).tokens,
            expr_outcome(r, final(self).current as int, primary(old(self).tokens@, old(self).current as int)),
            r is Ok ==> final(self).current > old(self).current,
            !starts_primary(kind_at(old(self).tokens@, old(self).current as int)) ==> final(self).current
                == old(self).current,
        decreases old(self).tokens@.len() - old(self).current, 1int,
    {
        if self.check(TokenType::NUMBER) {
            let t = self.advance();
            Ok(Expr::Literal(Literal::Number(literal_text_of(&t))))
        } else if self.check(TokenType::STRING) {
            let t = self.advance();
            Ok(Expr::Literal(Literal::Str(literal_text_of(&t))))
        } else if self.check(TokenType::TRUE) {
            self.advance();
            Ok(Expr::Literal(Literal::Bool(true)))
        } else if self.check(TokenType::FALSE) {
            self.advance();
            Ok(Expr::Literal(Literal::Bool(false)))
        } else if self.check(TokenType::NIL) {
            self.advance();
            Ok(Expr::Literal(Literal::Nil))
        } else if self.check(TokenType::IDENTIFIER) {
            let t = self.advance();
            Ok(Expr::Variable(t))
        } else if self.check(TokenType::LEFT_PAREN) {
            self.advance();
            let e = match self.expression() {
                Ok(e) => e,
                Err(e) => return Err(e),
            };
            if self.check(TokenType::RIGHT_PAREN) {
                self.advance();
                Ok(Expr::Grouping(Box::new(e)))
            } else {
                Err(self.error(ParseErrorKind::ExpectRightParen))
            }
        } else {
            Err(self.error(ParseErrorKind::ExpectExpression))
        }
    }

    fn expr_then_semicolon(&mut self, missing: ParseErrorKind) -> (r: Result<Expr, ParseError>)
        requires
            old(self).wf(),
        ensures
            final(self).wf(),
            final(self).tokens == old(self).tokens,
            expr_outcome(r, final(self).current as int, expr_then_semicolon(old(self).tokens@, old(self).current as int, missing)),
            r is Ok ==> final(self).current > old(self).current,
        decreases old(self).tokens@.len() - old(self).current, 9int,
    {
        let e = match self.expression() {
            Ok(e) => e,
            Err(e) => return Err(e),
        };
        if self.check(TokenType::SEMICOLON) {
            self.advance();
            Ok(e)
        } else {
            Err(self.error(missing))
        }
    }

    fn var_declaration(&mut self) -> (r: Result<Stmt, ParseError>)
        requires
            old(self).wf(),
        ensures
            final(self).wf(),
            final(self).tokens == old(self).tokens,
            stmt_outcome(r, final(self).current as int, var_declaration(old(self).tokens@, old(self).current as int)),
            r is Ok ==> final(self).current > old(self).current,
        decreases old(self).tokens@.len() - old(self).current, 10int,
    {
        if self.check(TokenType::IDENTIFIER) {
            let name = self.advance();
            if self.check(TokenType::EQUAL) {
                self.advance();
                let e = match self.expr_then_semicolon(ParseErrorKind::ExpectSemicolonAfterVariable) {
                    Ok(e) => e,
                    Err(e) => return Err(e),
                };
                Ok(Stmt::Var { name, initializer: Some(e) })
            } else if self.check(TokenType::SEMICOLON) {
                self.advance();
                Ok(Stmt::Var { name, initializer: None })
            } else {
                Err(self.error(ParseErrorKind::ExpectSemicolonAfterVariable))
            }
        } else {
            Err(self.error(ParseErrorKind::ExpectVariableName))
        }
    }

    fn statement(&mut self) -> (r: Result<Stmt, ParseError>)
        requires
            old(self).wf(),
        ensures
            final(self).wf(),
            final(self).tokens == old(self).tokens,
            stmt_outcome(r, final(self).current as int, statement(old(self).tokens@, old(self).current as int)),
            r is Ok ==> final(self).current > old(self).current,
        decreases old(self).tokens@.len() - old(self).current, 11int,
    {
        if self.check(TokenType::PRINT) {
            self.advance();
            let e = match self.expr_then_semicolon(ParseErrorKind::ExpectSemicolonAfterValue) {
                Ok(e) => e,
                Err(e) => return Err(e),
            };
            Ok(Stmt::Print(e))
        } else if self.check(TokenType::LEFT_BRACE) {
            self.advance();
            let b = match self.block() {
                Ok(b) => b,
                Err(e) => return Err(e),
            };
            proof {
                lemma_block_view(b);
            }
            Ok(Stmt::Block(b))
        } else {
            let e = match self.expr_then_semicolon(ParseErrorKind::ExpectSemicolonAfterExpression) {
                Ok(e) => e,
                Err(e) => return Err(e),
            };
            Ok(Stmt::Expression(e))
        }
    }

    fn declaration(&mut self) -> (r: Result<Stmt, ParseError>)
        requires
            old(self).wf(),
        ensures
            final(self).wf(),
            final(self).tokens == old(self).tokens,
            stmt_outcome(r, final(self).current as int, declaration(old(self).tokens@, old(self).current as int)),
            r is Ok ==> final(self).current > old(self).current,
        decreases old(self).tokens@.len() - old(self).current, 12int,
    {
        if self.check(TokenType::VAR) {
            self.advance();
            self.var_declaration()
        } else {
            self.statement()
        }
    }

    /// The declarations of a block whose "{" has been consumed, and its "}".
    fn block(&mut self) -> (r: Result<Vec<Stmt>, ParseError>)
        requires
            old(self).wf(),
        ensures
            final(self).wf(),
            final(self).tokens == old(self).tokens,
            match (r, block(old(self).tokens@, old(self).current as int, Seq::empty())) {
                (Ok(v), Ok((sv, j))) => stmt_views(v@) == sv && final(self).current == j,
                (Err(x), Err(y)) => x == y,
                _ => false,
            },
            r is Ok ==> final(self).current > old(self).current,
        decreases old(self).tokens@.len() - old(self).current, 13int,
    {
        let ghost ts = self.tokens@;
        let ghost i0 = self.current as int;
        let mut statements: Vec<Stmt> = Vec::new();
        assert(stmt_views(statements@) =~= Seq::<StmtView>::empty());
        while !self.check(TokenType::RIGHT_BRACE) && !self.is_at_end()
            invariant
                self.wf(),
                self.tokens@ == ts,
                self.tokens == old(self).tokens,
                ts == old(self).tokens@,
                i0 == old(self).current,
                self.current >= i0,
                block(ts, self.current as int, stmt_views(statements@)) == block(ts, i0, Seq::empty()),
            decreases ts.len() - self.current,
        {
            let s = match self.declaration() {
                Ok(s) => s,
                Err(e) => return Err(e),
            };
            proof {
                lemma_stmt_views_push(statements@, s);
            }
            statements.push(s);
        }
        if self.check(TokenType::RIGHT_BRACE) {
            self.advance();
            Ok(statements)
        } else {
            Err(self.error(ParseErrorKind::ExpectRightBrace))
        }
    }
}

} // verus!
