use lox::environment::{Environment, RuntimeError};
use lox::expr::{Expr, Literal};
use lox::grammar::{ParseError, ParseErrorKind};
use lox::interpreter::Interpreter;
use lox::parser::Parser;
use lox::scanner::scan;
use lox::semantics::NumberTask;
use lox::stmt::Stmt;
use lox::token::{Token, TokenType};
use lox::value::{LiteralValue, Number};

fn float_arith(t: NumberTask) -> u64 {
    match t {
        NumberTask::Decode(s) => s.parse::<f64>().unwrap().to_bits(),
        NumberTask::Add(a, b) => (f64::from_bits(a) + f64::from_bits(b)).to_bits(),
        NumberTask::Subtract(a, b) => (f64::from_bits(a) - f64::from_bits(b)).to_bits(),
        NumberTask::Multiply(a, b) => (f64::from_bits(a) * f64::from_bits(b)).to_bits(),
        NumberTask::Divide(a, b) => (f64::from_bits(a) / f64::from_bits(b)).to_bits(),
    }
}

fn literal_float_text(lexeme: String) -> String {
    let v: f64 = lexeme.parse().unwrap();
    if v.fract() == 0.0 {
        format!("{:.1}", v)
    } else {
        v.to_string()
    }
}

fn parse_expr(source: &str) -> Result<Expr, ParseError> {
    let (tokens, had_error) = scan(source.to_string(), &literal_float_text);
    assert!(!had_error);
    Parser::new(tokens).parse_expression()
}

fn parse_program(source: &str) -> Result<Vec<Stmt>, ParseError> {
    let (tokens, had_error) = scan(source.to_string(), &literal_float_text);
    assert!(!had_error);
    Parser::new(tokens).parse_statements()
}

fn ast(source: &str) -> String {
    parse_expr(source).unwrap().to_text()
}

fn eval(source: &str) -> Result<LiteralValue, RuntimeError> {
    let expr = parse_expr(source).unwrap();
    Interpreter::new().evaluate(&expr, &float_arith)
}

fn number(v: &LiteralValue) -> f64 {
    match v {
        LiteralValue::NumberLiteral(n) => f64::from_bits(n.bits),
        other => panic!("not a number: {:?}", other),
    }
}

fn boolean(v: &LiteralValue) -> bool {
    match v {
        LiteralValue::BooleanLiteral(b) => *b,
        other => panic!("not a boolean: {:?}", other),
    }
}

fn run(source: &str) -> (Result<(), RuntimeError>, Vec<LiteralValue>) {
    let statements = parse_program(source).unwrap();
    let mut interpreter = Interpreter::new();
    let r = interpreter.interpret(statements, &float_arith);
    (r, interpreter.take_output())
}

fn num(x: f64) -> LiteralValue {
    LiteralValue::NumberLiteral(Number { bits: x.to_bits() })
}

#[test]
fn precedence_of_factor_over_term() {
    assert_eq!(ast("1 + 2 * 3"), "(+ 1.0 (* 2.0 3.0))");
}

#[test]
fn grouping_overrides_precedence() {
    assert_eq!(ast("(1 + 2) * 3"), "(* (group (+ 1.0 2.0)) 3.0)");
}

#[test]
fn binary_operators_associate_left() {
    assert_eq!(ast("1 - 2 - 3"), "(- (- 1.0 2.0) 3.0)");
    assert_eq!(ast("8 / 4 / 2"), "(/ (/ 8.0 4.0) 2.0)");
}

#[test]
fn comparison_binds_tighter_than_equality() {
    assert_eq!(ast("1 < 2 == true"), "(== (< 1.0 2.0) true)");
    assert_eq!(ast("1 + 2 >= 3 != nil"), "(!= (>= (+ 1.0 2.0) 3.0) nil)");
}

#[test]
fn assignment_is_right_associative_and_unary_nests() {
    assert_eq!(ast("a = b = -!c"), "(assign a = (assign b = (- (! c))))");
    assert_eq!(ast("\"hi\" + 2.50"), "(+ hi 2.5)");
}

#[test]
fn invalid_assignment_target() {
    let e = parse_expr("1 + 2 = 3").unwrap_err();
    assert_eq!(e, ParseError { kind: ParseErrorKind::InvalidAssignmentTarget, line: 1 });
    assert_eq!(e.kind.message(), "Invalid assignment target.");
}

#[test]
fn missing_right_paren() {
    let e = parse_expr("(1\n+ 2").unwrap_err();
    assert_eq!(e, ParseError { kind: ParseErrorKind::ExpectRightParen, line: 2 });
}

#[test]
fn missing_expression() {
    assert_eq!(parse_expr("+").unwrap_err(), ParseError { kind: ParseErrorKind::ExpectExpression, line: 1 });
    assert_eq!(parse_expr("").unwrap_err().kind, ParseErrorKind::ExpectExpression);
}

#[test]
fn statements_and_blocks() {
    let program = parse_program("var a = 1; var b; { print a; a = 2; } b;").unwrap();
    assert_eq!(program.len(), 4);
    match &program[0] {
        Stmt::Var { name, initializer: Some(Expr::Literal(Literal::Number(t))) } => {
            assert_eq!(name.lexeme, "a");
            assert_eq!(t, "1.0");
        }
        other => panic!("unexpected {:?}", other),
    }
    assert!(matches!(&program[1], Stmt::Var { initializer: None, .. }));
    match &program[2] {
        Stmt::Block(inner) => {
            assert_eq!(inner.len(), 2);
            assert!(matches!(&inner[0], Stmt::Print(Expr::Variable(_))));
            assert!(matches!(&inner[1], Stmt::Expression(Expr::Assign { .. })));
        }
        other => panic!("unexpected {:?}", other),
    }
    assert!(matches!(&program[3], Stmt::Expression(Expr::Variable(_))));
}

#[test]
fn statement_errors() {
    let kind = |s: &str| parse_program(s).unwrap_err().kind;
    assert_eq!(kind("{ print 1;"), ParseErrorKind::ExpectRightBrace);
    assert_eq!(kind("print 1"), ParseErrorKind::ExpectSemicolonAfterValue);
    assert_eq!(kind("var a"), ParseErrorKind::ExpectSemicolonAfterVariable);
    assert_eq!(kind("var a = 1"), ParseErrorKind::ExpectSemicolonAfterVariable);
    assert_eq!(kind("var 1;"), ParseErrorKind::ExpectVariableName);
    assert_eq!(kind("1 2;"), ParseErrorKind::ExpectSemicolonAfterExpression);
    assert_eq!(parse_program("print 1;\nprint ;").unwrap_err(), ParseError { kind: ParseErrorKind::ExpectExpression, line: 2 });
}

#[test]
fn evaluate_number_addition() {
    assert_eq!(number(&eval("1 + 2").unwrap()), 3.0);
    assert_eq!(number(&eval("10 - 4 * 2 / 8").unwrap()), 9.0);
    assert_eq!(number(&eval("-(3)").unwrap()), -3.0);
}

#[test]
fn evaluate_string_concatenation() {
    match eval("\"a\" + \"b\"").unwrap() {
        LiteralValue::StringLiteral(s) => assert_eq!(s, "ab"),
        other => panic!("unexpected {:?}", other),
    }
}

#[test]
fn evaluate_mixed_plus_is_an_error() {
    let e = eval("1 + \"b\"").unwrap_err();
    assert_eq!(e.message, "Operands must be two numbers or two strings.");
    assert_eq!(e.line, 1);
}

#[test]
fn evaluate_division_by_zero() {
    let e = eval("1 / 0").unwrap_err();
    assert_eq!(e.message, "Division by zero.");
    assert_eq!(eval("1 / -0").unwrap_err().message, "Division by zero.");
    assert_eq!(number(&eval("1 / 4").unwrap()), 0.25);
}

#[test]
fn operands_must_be_numbers() {
    assert_eq!(eval("-\"a\"").unwrap_err().message, "Operand must be a number.");
    assert_eq!(eval("true * 2").unwrap_err().message, "Operand must be a number.");
    assert_eq!(eval("\"a\" < \"b\"").unwrap_err().message, "Operand must be a number.");
}

#[test]
fn truthiness_only_nil_and_false_are_falsy() {
    assert!(boolean(&eval("!nil").unwrap()));
    assert!(!boolean(&eval("!0").unwrap()));
    assert!(!boolean(&eval("!\"false\"").unwrap()));
    assert!(!boolean(&eval("!\"\"").unwrap()));
    assert!(boolean(&eval("!false").unwrap()));
    assert!(!boolean(&eval("!true").unwrap()));
}

#[test]
fn equality_is_type_aware() {
    assert!(!boolean(&eval("1 == \"1\"").unwrap()));
    assert!(boolean(&eval("1 != \"1\"").unwrap()));
    assert!(boolean(&eval("nil == nil").unwrap()));
    assert!(!boolean(&eval("nil == false").unwrap()));
    assert!(boolean(&eval("1 == 1.0").unwrap()));
    assert!(boolean(&eval("-0 == 0").unwrap()));
    assert!(!boolean(&eval("\"a\" != \"a\"").unwrap()));
}

#[test]
fn comparisons_on_numbers() {
    assert!(boolean(&eval("2 > 1").unwrap()));
    assert!(boolean(&eval("1 >= 1").unwrap()));
    assert!(!boolean(&eval("1 < -1").unwrap()));
    assert!(boolean(&eval("-2 <= -1").unwrap()));
    assert!(!boolean(&eval("-0 < 0").unwrap()));
}

#[test]
fn undefined_variable_is_an_error() {
    let e = eval("\n\nx").unwrap_err();
    assert_eq!(e.message, "Undefined variable 'x'.");
    assert_eq!(e.line, 3);
    assert_eq!(eval("y = 1").unwrap_err().message, "Undefined variable 'y'.");
}

#[test]
fn inner_declaration_does_not_leak() {
    let (r, out) = run("var a = 1; { var a = 2; } print a;");
    assert!(r.is_ok());
    assert_eq!(out, vec![num(1.0)]);
}

#[test]
fn assignment_through_the_chain_persists() {
    let (r, out) = run("var a = 1; { a = 2; } print a;");
    assert!(r.is_ok());
    assert_eq!(out, vec![num(2.0)]);
}

#[test]
fn block_local_names_end_with_the_block() {
    let (r, out) = run("{ var b = 1; print b; } print b;");
    assert_eq!(out, vec![num(1.0)]);
    assert_eq!(r.unwrap_err().message, "Undefined variable 'b'.");
}

#[test]
fn nested_blocks_see_outer_names() {
    let (r, out) = run("var a = \"x\"; { var b = a + \"y\"; { a = b + \"z\"; print a; } } print a; var c; print c;");
    assert!(r.is_ok());
    assert_eq!(
        out,
        vec![
            LiteralValue::StringLiteral("xyz".to_string()),
            LiteralValue::StringLiteral("xyz".to_string()),
            LiteralValue::Nil,
        ]
    );
}

#[test]
fn runtime_error_stops_the_run() {
    let (r, out) = run("print 1;\nprint x;\nprint 2;");
    let e = r.unwrap_err();
    assert_eq!(e.message, "Undefined variable 'x'.");
    assert_eq!(e.line, 2);
    assert_eq!(out, vec![num(1.0)]);
}

#[test]
fn assignment_is_an_expression() {
    let (r, out) = run("var a; print a = 3; print a;");
    assert!(r.is_ok());
    assert_eq!(out, vec![num(3.0), num(3.0)]);
}

#[test]
fn redefinition_in_one_scope_replaces() {
    let (r, out) = run("var a = 1; var a = 2; print a;");
    assert!(r.is_ok());
    assert_eq!(out, vec![num(2.0)]);
}

#[test]
fn environment_define_get_assign() {
    let mut global = Environment::new();
    global.define("a".to_string(), LiteralValue::BooleanLiteral(true));
    let mut inner = Environment::from_enclosing(global);
    inner.define("b".to_string(), LiteralValue::Nil);
    assert_eq!(inner.get("a", 1).unwrap(), LiteralValue::BooleanLiteral(true));
    inner.assign("a", LiteralValue::Nil, 1).unwrap();
    assert_eq!(inner.get("a", 1).unwrap(), LiteralValue::Nil);
    inner.exit_scope();
    assert_eq!(inner.get("a", 1).unwrap(), LiteralValue::Nil);
    assert_eq!(inner.get("b", 7).unwrap_err().line, 7);
    assert!(inner.assign("b", LiteralValue::Nil, 2).is_err());
}

#[test]
fn number_bit_operations() {
    let n = |x: f64| Number { bits: x.to_bits() };
    let nan = Number { bits: f64::NAN.to_bits() };
    assert!(!nan.equals(&nan));
    assert!(!nan.less(&n(1.0)));
    assert!(n(0.0).equals(&n(-0.0)));
    assert!(n(-1.5).less(&n(-1.0)));
    assert!(n(1.0).less(&n(f64::INFINITY)));
    assert!(n(2.0).less_equal(&n(2.0)));
    assert_eq!(f64::from_bits(n(2.5).negate().bits), -2.5);
    assert!(n(-0.0).is_zero());
    assert!(!n(1e-300).is_zero());
}

#[test]
fn runtime_rendering_of_values() {
    let interpreter = Interpreter::new();
    let render = |bits: u64| {
        let x = f64::from_bits(bits);
        if x.fract() == 0.0 { format!("{}", x as i64) } else { x.to_string() }
    };
    assert_eq!(interpreter.literal_to_string(LiteralValue::StringLiteral("s".to_string()), &render), "s");
    assert_eq!(interpreter.literal_to_string(LiteralValue::BooleanLiteral(false), &render), "false");
    assert_eq!(interpreter.literal_to_string(LiteralValue::BooleanLiteral(true), &render), "true");
    assert_eq!(interpreter.literal_to_string(LiteralValue::Nil, &render), "nil");
    assert_eq!(interpreter.literal_to_string(num(3.0), &render), "3");
    assert_eq!(interpreter.literal_to_string(num(2.5), &render), "2.5");
}

#[test]
fn unknown_operators_in_hand_built_trees() {
    let one = || Box::new(Expr::Literal(Literal::Number("1.0".to_string())));
    let comma = Token::new(TokenType::COMMA, ",".to_string(), None, 9);
    let binary = Expr::Binary { left: one(), operator: comma.duplicate(), right: one() };
    let e = Interpreter::new().evaluate(&binary, &float_arith).unwrap_err();
    assert_eq!(e.message, "Unknown operator: ,");
    assert_eq!(e.line, 9);
    let unary = Expr::Unary { operator: comma, right: one() };
    let e = Interpreter::new().evaluate(&unary, &float_arith).unwrap_err();
    assert_eq!(e.message, "Unknown unary operator: ,");
}

#[test]
fn expression_parse_stops_after_one_expression() {
    assert_eq!(ast("1 2"), "1.0");
    assert_eq!(ast("(\"a\")"), "(group a)");
}

#[test]
fn number_literals_evaluate_to_their_value() {
    assert_eq!(number(&eval("200").unwrap()), 200.0);
    assert_eq!(number(&eval("200.00").unwrap()), 200.0);
    assert_eq!(number(&eval("0.1 + 0.2").unwrap()), 0.1 + 0.2);
}
