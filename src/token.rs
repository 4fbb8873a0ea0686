//! Token kinds and token records produced by the lexer.
use vstd::prelude::*;

verus! {

/// The closed set of lexical categories.
#[allow(non_camel_case_types)]
#[derive(Debug, Clone, Copy, PartialEq, Eq, Structural)]
pub enum TokenType {
    LEFT_PAREN,
    RIGHT_PAREN,
    LEFT_BRACE,
    RIGHT_BRACE,
    STAR,
    DOT,
    COMMA,
    PLUS,
    MINUS,
    SEMICOLON,
    EQUAL,
    EQUAL_EQUAL,
    BANG,
    BANG_EQUAL,
    LESS,
    LESS_EQUAL,
    GREATER,
    GREATER_EQUAL,
    SLASH,
    IDENTIFIER,
    STRING,
    NUMBER,
    AND,
    CLASS,
    ELSE,
    FALSE,
    FOR,
    FUN,
    IF,
    NIL,
    OR,
    PRINT,
    RETURN,
    SUPER,
    THIS,
    TRUE,
    VAR,
    WHILE,
    EOF,
}

/// The name shown for a kind.
pub open spec fn kind_name(k: TokenType) -> Seq<char> {
    match k {
        TokenType::LEFT_PAREN => "LEFT_PAREN"@,
        TokenType::RIGHT_PAREN => "RIGHT_PAREN"@,
        TokenType::LEFT_BRACE => "LEFT_BRACE"@,
        TokenType::RIGHT_BRACE => "RIGHT_BRACE"@,
        TokenType::STAR => "STAR"@,
        TokenType::DOT => "DOT"@,
        TokenType::COMMA => "COMMA"@,
        TokenType::PLUS => "PLUS"@,
        TokenType::MINUS => "MINUS"@,
        TokenType::SEMICOLON => "SEMICOLON"@,
        TokenType::EQUAL => "EQUAL"@,
        TokenType::EQUAL_EQUAL => "EQUAL_EQUAL"@,
        TokenType::BANG => "BANG"@,
        TokenType::BANG_EQUAL => "BANG_EQUAL"@,
        TokenType::LESS => "LESS"@,
        TokenType::LESS_EQUAL => "LESS_EQUAL"@,
        TokenType::GREATER => "GREATER"@,
        TokenType::GREATER_EQUAL => "GREATER_EQUAL"@,
        TokenType::SLASH => "SLASH"@,
        TokenType::IDENTIFIER => "IDENTIFIER"@,
        TokenType::STRING => "STRING"@,
        TokenType::NUMBER => "NUMBER"@,
        TokenType::AND => "AND"@,
        TokenType::CLASS => "CLASS"@,
        TokenType::ELSE => "ELSE"@,
        TokenType::FALSE => "FALSE"@,
        TokenType::FOR => "FOR"@,
        TokenType::FUN => "FUN"@,
        TokenType::IF => "IF"@,
        TokenType::NIL => "NIL"@,
        TokenType::OR => "OR"@,
        TokenType::PRINT => "PRINT"@,
        TokenType::RETURN => "RETURN"@,
        TokenType::SUPER => "SUPER"@,
        TokenType::THIS => "THIS"@,
        TokenType::TRUE => "TRUE"@,
        TokenType::VAR => "VAR"@,
        TokenType::WHILE => "WHILE"@,
        TokenType::EOF => "EOF"@,
    }
}

impl TokenType {
    pub fn name(&self) -> (r: &'static str)
        ensures
            r@ == kind_name(*self),
    {
        match self {
            TokenType::LEFT_PAREN => "LEFT_PAREN",
            TokenType::RIGHT_PAREN => "RIGHT_PAREN",
            TokenType::LEFT_BRACE => "LEFT_BRACE",
            TokenType::RIGHT_BRACE => "RIGHT_BRACE",
            TokenType::STAR => "STAR",
            TokenType::DOT => "DOT",
            TokenType::COMMA => "COMMA",
            TokenType::PLUS => "PLUS",
            TokenType::MINUS => "MINUS",
            TokenType::SEMICOLON => "SEMICOLON",
            TokenType::EQUAL => "EQUAL",
            TokenType::EQUAL_EQUAL => "EQUAL_EQUAL",
            TokenType::BANG => "BANG",
            TokenType::BANG_EQUAL => "BANG_EQUAL",
            TokenType::LESS => "LESS",
            TokenType::LESS_EQUAL => "LESS_EQUAL",
            TokenType::GREATER => "GREATER",
            TokenType::GREATER_EQUAL => "GREATER_EQUAL",
            TokenType::SLASH => "SLASH",
            TokenType::IDENTIFIER => "IDENTIFIER",
            TokenType::STRING => "STRING",
            TokenType::NUMBER => "NUMBER",
            TokenType::AND => "AND",
            TokenType::CLASS => "CLASS",
            TokenType::ELSE => "ELSE",
            TokenType::FALSE => "FALSE",
            TokenType::FOR => "FOR",
            TokenType::FUN => "FUN",
            TokenType::IF => "IF",
            TokenType::NIL => "NIL",
            TokenType::OR => "OR",
            TokenType::PRINT => "PRINT",
            TokenType::RETURN => "RETURN",
            TokenType::SUPER => "SUPER",
            TokenType::THIS => "THIS",
            TokenType::TRUE => "TRUE",
            TokenType::VAR => "VAR",
            TokenType::WHILE => "WHILE",
            TokenType::EOF => "EOF",
        }
    }
}

/// The line shown for a token: its kind, its lexeme, and its literal or `null`.
pub open spec fn token_text(t: TokenModel) -> Seq<char> {
    kind_name(t.kind) + " "@ + t.lexeme + " "@ + match t.literal {
        Some(l) => l,
        None => "null"@,
    }
}

/// What a token means, over mathematical values.
pub struct TokenModel {
    pub kind: TokenType,
    pub lexeme: Seq<char>,
    pub literal: Option<Seq<char>>,
    pub line: nat,
}

pub open spec fn opt_text_view(o: Option<String>) -> Option<Seq<char>> {
    match o {
        Some(s) => Some(s@),
        None => None,
    }
}

pub open spec fn token_models(ts: Seq<Token>) -> Seq<TokenModel> {
    ts.map_values(|t: Token| t.model())
}

pub proof fn lemma_token_models_push(ts: Seq<Token>, t: Token)
    ensures
        token_models(ts.push(t)) == token_models(ts).push(t.model()),
{
    assert(token_models(ts.push(t)) =~= token_models(ts).push(t.model()));
}

/// One scanned token: its kind, the exact source text, the decoded literal
/// (strings and numbers only) and the line on which it was completed.
#[derive(Debug, Clone)]
pub struct Token {
    pub token_type: TokenType,
    pub lexeme: String,
    pub literal: Option<String>,
    pub line: usize,
}

impl Token {
    pub open spec fn model(&self) -> TokenModel {
        TokenModel {
            kind: self.token_type,
            lexeme: self.lexeme@,
            literal: opt_text_view(self.literal),
            line: self.line as nat,
        }
    }

    pub fn new(token_type: TokenType, lexeme: String, literal: Option<String>, line: usize) -> (r: Token)
        ensures
            r.token_type == token_type,
            r.lexeme == lexeme,
            r.literal == literal,
            r.line == line,
    {
        Token { token_type, lexeme, literal, line }
    }

    /// The token's display line: `<KIND> <lexeme> <literal-or-null>`.
    pub fn display_text(&self) -> (r: String)
        ensures
            r@ == token_text(self.model()),
    {
        let mut r = String::from_str(self.token_type.name());
        r.append(" ");
        r.append(self.lexeme.as_str());
        r.append(" ");
        match &self.literal {
            Some(l) => r.append(l.as_str()),
            None => r.append("null"),
        }
        r
    }

    /// A copy equal to this token.
    pub fn duplicate(&self) -> (r: Token)
        ensures
            r == *self,
    {
        let literal = match &self.literal {
            Some(x) => Some(x.clone()),
            None => None,
        };
        Token { token_type: self.token_type, lexeme: self.lexeme.clone(), literal, line: self.line }
    }
}

} // verus!
