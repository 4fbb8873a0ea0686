//! Expressions: an owned tree, each node holding its children.
use vstd::prelude::*;
use crate::token::Token;

verus! {

/// A literal as written in the source. A number keeps its decoded decimal
/// text (`200.0`, `1.5`); the evaluator turns it into a value.
#[derive(Debug, Clone)]
pub enum Literal {
    Str(String),
    Number(String),
    Bool(bool),
    Nil,
}

#[derive(Debug)]
pub enum Expr {
    Assign { name: Token, value: Box<Expr> },
    Binary { left: Box<Expr>, operator: Token, right: Box<Expr> },
    Grouping(Box<Expr>),
    Literal(Literal),
    Unary { operator: Token, right: Box<Expr> },
    Variable(Token),
}

pub open spec fn literal_text_view(l: Literal) -> Seq<char> {
    match l {
        Literal::Str(s) => s@,
        Literal::Number(t) => t@,
        Literal::Bool(b) => if b { "true"@ } else { "false"@ },
        Literal::Nil => "nil"@,
    }
}

/// The parenthesized prefix form of an expression: `(<op> <left> <right>)`,
/// `(group <e>)`, `(<op> <right>)`, `(assign <name> = <value>)`; a number
/// shows its decoded text, whole numbers with one decimal place.
pub open spec fn ast_text(e: Expr) -> Seq<char>
    decreases e,
{
    match e {
        Expr::Binary { left, operator, right } => "("@ + operator.lexeme@ + " "@ + ast_text(*left) + " "@
            + ast_text(*right) + ")"@,
        Expr::Grouping(inner) => "(group "@ + ast_text(*inner) + ")"@,
        Expr::Literal(l) => literal_text_view(l),
        Expr::Unary { operator, right } => "("@ + operator.lexeme@ + " "@ + ast_text(*right) + ")"@,
        Expr::Variable(name) => name.lexeme@,
        Expr::Assign { name, value } => "(assign "@ + name.lexeme@ + " = "@ + ast_text(*value) + ")"@,
    }
}

impl Expr {
    /// The expression in parenthesized prefix form.
    pub fn to_text(&self) -> (r: String)
        ensures
            r@ == ast_text(*self),
        decreases self,
    {
        match self {
            Expr::Binary { left, operator, right } => {
                let mut r = String::from_str("(");
                r.append(operator.lexeme.as_str());
                r.append(" ");
                r.append(left.to_text().as_str());
                r.append(" ");
                r.append(right.to_text().as_str());
                r.append(")");
                r
            },
            Expr::Grouping(inner) => {
                let mut r = String::from_str("(group ");
                r.append(inner.to_text().as_str());
                r.append(")");
                r
            },
            Expr::Literal(l) => match l {
                Literal::Str(s) => s.clone(),
                Literal::Number(t) => t.clone(),
                Literal::Bool(b) => if *b {
                    String::from_str("true")
                } else {
                    String::from_str("false")
                },
                Literal::Nil => String::from_str("nil"),
            },
            Expr::Unary { operator, right } => {
                let mut r = String::from_str("(");
                r.append(operator.lexeme.as_str());
                r.append(" ");
                r.append(right.to_text().as_str());
                r.append(")");
                r
            },
            Expr::Variable(name) => name.lexeme.clone(),
            Expr::Assign { name, value } => {
                let mut r = String::from_str("(assign ");
                r.append(name.lexeme.as_str());
                r.append(" = ");
                r.append(value.to_text().as_str());
                r.append(")");
                r
            },
        }
    }
}

} // verus!
