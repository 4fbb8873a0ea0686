use lox::scanner::{scan, Scanner, LexError};
use lox::lexspec::LexErrorKind;
use lox::token::{Token, TokenType};

fn float_text(lexeme: String) -> String {
    let v: f64 = lexeme.parse().unwrap();
    if v.fract() == 0.0 {
        format!("{:.1}", v)
    } else {
        v.to_string()
    }
}

fn tokens_of(source: &str) -> (Vec<Token>, bool) {
    scan(source.to_string(), &float_text)
}

fn kinds(tokens: &[Token]) -> Vec<TokenType> {
    tokens.iter().map(|t| t.token_type).collect()
}

#[test]
fn scan_empty_source_gives_only_end_marker() {
    let (tokens, had_error) = tokens_of("");
    assert!(!had_error);
    assert_eq!(tokens.len(), 1);
    assert_eq!(tokens[0].token_type, TokenType::EOF);
    assert_eq!(tokens[0].lexeme, "");
    assert_eq!(tokens[0].literal, None);
    assert_eq!(tokens[0].line, 1);
    assert_eq!(tokens[0].display_text(), "EOF  null");
}

#[test]
fn unterminated_string_sets_error_and_keeps_end_marker() {
    let mut scanner = Scanner::new("\"abc".to_string());
    scanner.scan_tokens(&float_text);
    assert!(scanner.has_error());
    let tokens = scanner.get_tokens();
    assert_eq!(tokens.len(), 1);
    assert_eq!(tokens.last().unwrap().token_type, TokenType::EOF);
    assert_eq!(scanner.get_errors(), &vec![LexError { kind: LexErrorKind::UnterminatedString, line: 1 }]);
}

#[test]
fn number_literals_decode_to_one_decimal_place() {
    let (tokens, had_error) = tokens_of("200 200.00 1.50 007 0.0 3.14159");
    assert!(!had_error);
    let literals: Vec<String> = tokens[..6].iter().map(|t| t.literal.clone().unwrap()).collect();
    assert_eq!(literals, vec!["200.0", "200.0", "1.5", "7.0", "0.0", "3.14159"]);
    assert_eq!(tokens[1].lexeme, "200.00");
    assert_eq!(literals[0].parse::<f64>().unwrap(), 200.0);
    assert_eq!(literals[1].parse::<f64>().unwrap(), 200.0);
}

#[test]
fn trailing_dot_is_not_part_of_a_number() {
    let (tokens, _) = tokens_of("12.");
    assert_eq!(kinds(&tokens), vec![TokenType::NUMBER, TokenType::DOT, TokenType::EOF]);
    assert_eq!(tokens[0].lexeme, "12");
    assert_eq!(tokens[0].literal.as_deref(), Some("12.0"));
}

#[test]
fn lexemes_are_the_source_text_in_order() {
    let source = "var x = (1.5 + y) >= \"s t\"; // note\n!=";
    let (tokens, had_error) = tokens_of(source);
    assert!(!had_error);
    let lexemes: Vec<&str> = tokens.iter().map(|t| t.lexeme.as_str()).collect();
    assert_eq!(lexemes, vec!["var", "x", "=", "(", "1.5", "+", "y", ")", ">=", "\"s t\"", ";", "!=", ""]);
    let mut rest = source;
    for t in &tokens[..tokens.len() - 1] {
        let at = rest.find(t.lexeme.as_str()).unwrap();
        rest = &rest[at + t.lexeme.len()..];
    }
    assert_eq!(tokens[9].literal.as_deref(), Some("s t"));
}

#[test]
fn two_character_operators_use_maximal_munch() {
    let (tokens, _) = tokens_of("== != <= >= = ! < > / ===");
    assert_eq!(
        kinds(&tokens),
        vec![
            TokenType::EQUAL_EQUAL,
            TokenType::BANG_EQUAL,
            TokenType::LESS_EQUAL,
            TokenType::GREATER_EQUAL,
            TokenType::EQUAL,
            TokenType::BANG,
            TokenType::LESS,
            TokenType::GREATER,
            TokenType::SLASH,
            TokenType::EQUAL_EQUAL,
            TokenType::EQUAL,
            TokenType::EOF,
        ]
    );
}

#[test]
fn single_character_tokens() {
    let (tokens, _) = tokens_of("(){}*.,+-;");
    assert_eq!(
        kinds(&tokens),
        vec![
            TokenType::LEFT_PAREN,
            TokenType::RIGHT_PAREN,
            TokenType::LEFT_BRACE,
            TokenType::RIGHT_BRACE,
            TokenType::STAR,
            TokenType::DOT,
            TokenType::COMMA,
            TokenType::PLUS,
            TokenType::MINUS,
            TokenType::SEMICOLON,
            TokenType::EOF,
        ]
    );
}

#[test]
fn keywords_and_identifiers() {
    let (tokens, _) = tokens_of("and class else false for fun if nil or print return super this true var while orchid _x1");
    assert_eq!(
        kinds(&tokens),
        vec![
            TokenType::AND,
            TokenType::CLASS,
            TokenType::ELSE,
            TokenType::FALSE,
            TokenType::FOR,
            TokenType::FUN,
            TokenType::IF,
            TokenType::NIL,
            TokenType::OR,
            TokenType::PRINT,
            TokenType::RETURN,
            TokenType::SUPER,
            TokenType::THIS,
            TokenType::TRUE,
            TokenType::VAR,
            TokenType::WHILE,
            TokenType::IDENTIFIER,
            TokenType::IDENTIFIER,
            TokenType::EOF,
        ]
    );
    assert_eq!(tokens[16].lexeme, "orchid");
    assert_eq!(tokens[17].lexeme, "_x1");
}

#[test]
fn unicode_letters_and_numerals_in_identifiers() {
    let (tokens, had_error) = tokens_of("café x² ²");
    assert!(had_error);
    assert_eq!(kinds(&tokens), vec![TokenType::IDENTIFIER, TokenType::IDENTIFIER, TokenType::EOF]);
    assert_eq!(tokens[0].lexeme, "café");
    assert_eq!(tokens[1].lexeme, "x²");
}

#[test]
fn unexpected_character_is_reported_and_scanning_goes_on() {
    let mut scanner = Scanner::new("@ 1 #\n$".to_string());
    scanner.scan_tokens(&float_text);
    assert!(scanner.has_error());
    assert_eq!(kinds(scanner.get_tokens()), vec![TokenType::NUMBER, TokenType::EOF]);
    assert_eq!(
        scanner.get_errors(),
        &vec![
            LexError { kind: LexErrorKind::UnexpectedCharacter('@'), line: 1 },
            LexError { kind: LexErrorKind::UnexpectedCharacter('#'), line: 1 },
            LexError { kind: LexErrorKind::UnexpectedCharacter('$'), line: 2 },
        ]
    );
}

#[test]
fn lines_count_newlines_in_strings_and_comments() {
    let (tokens, _) = tokens_of("1\n\"a\nb\"\n2 // c\n3\t4");
    let lines: Vec<usize> = tokens.iter().map(|t| t.line).collect();
    assert_eq!(lines, vec![1, 3, 4, 5, 5, 5]);
    assert_eq!(tokens[1].literal.as_deref(), Some("a\nb"));
}

#[test]
fn comment_at_end_of_input() {
    let (tokens, had_error) = tokens_of("1 // trailing");
    assert!(!had_error);
    assert_eq!(kinds(&tokens), vec![TokenType::NUMBER, TokenType::EOF]);
}

#[test]
fn token_display_text() {
    let (tokens, _) = tokens_of("1.5 \"hi\" x");
    assert_eq!(tokens[0].display_text(), "NUMBER 1.5 1.5");
    assert_eq!(tokens[1].display_text(), "STRING \"hi\" hi");
    assert_eq!(tokens[2].display_text(), "IDENTIFIER x null");
    assert_eq!(tokens[3].display_text(), "EOF  null");
    assert_eq!(Token::new(TokenType::LESS_EQUAL, "<=".to_string(), None, 4).display_text(), "LESS_EQUAL <= null");
}

#[test]
fn number_literal_text_is_the_float_value() {
    let (tokens, _) = tokens_of("9007199254740993 0.10000000000000000001");
    assert_eq!(tokens[0].literal.as_deref(), Some("9007199254740992.0"));
    assert_eq!(tokens[0].lexeme, "9007199254740993");
    assert_eq!(tokens[1].literal.as_deref(), Some("0.1"));
}

#[test]
fn rescanning_a_lexeme_gives_the_same_token() {
    let (tokens, _) = tokens_of("var x = (12.50 + y_2) >= \"a\nb\"; print !x != nil; // done");
    for t in &tokens[..tokens.len() - 1] {
        let (again, had_error) = tokens_of(&t.lexeme);
        assert!(!had_error);
        assert_eq!(again.len(), 2);
        assert_eq!(again[0].token_type, t.token_type);
        assert_eq!(again[0].lexeme, t.lexeme);
        assert_eq!(again[0].literal, t.literal);
        assert_eq!(again[1].token_type, TokenType::EOF);
    }
}
