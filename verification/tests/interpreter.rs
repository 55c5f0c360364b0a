use miniscript::environment::Environment;
use miniscript::error_reporter::ErrorReporter;
use miniscript::expression::{eval_ast, format_ast};
use miniscript::number::Num;
use miniscript::parser::Parser;
use miniscript::scanner::Scanner;
use miniscript::statement::Stmt;
use miniscript::EvalResult;
use miniscript::Expr;
use miniscript::Token;
use miniscript::TokenType;

#[test]
fn test_print_ast() {
    let expr = Expr::Binary(
        Box::new(Expr::Unary(
            Token::new(TokenType::Minus, "-", 1),
            Box::new(Expr::Literal(Token::new(TokenType::Number, "123", 1))),
        )),
        Token::new(TokenType::Star, "*", 1),
        Box::new(Expr::Grouping(Box::new(Expr::Literal(Token::new(
            TokenType::Number,
            "45.67",
            1,
        ))))),
    );

    let result = format_ast(&expr);

    assert_eq!(result, "(* (- 123) (group 45.67))");
}

#[test]
fn test_parse_expressions() {
    test_parse_expression("-123 * (45.67)", "(* (- 123) (group 45.67))")
}

fn test_parse_expression(input: &str, expected_output: &str) {
    let mut reporter = ErrorReporter::new();

    let mut scanner = Scanner::new(input);
    scanner.scan_tokens(&mut reporter);

    let mut parser = Parser::new(scanner.tokens);
    let prgm = match parser.parse(&mut reporter) {
        Ok(prgm) => prgm,
        Err(_err) => {
            panic!("Syntax error.");
        }
    };

    let result = match &prgm[0] {
        Stmt::Expression(e) => format_ast(e),
        Stmt::Print(e) => {
            let mut s = String::from("print ");
            s.push_str(&format_ast(e));
            s
        }
    };

    assert_eq!(result, expected_output);
}

fn num(n: i64) -> EvalResult {
    EvalResult::Number(Num::from_int(n))
}

fn rat(n: i64, d: i64) -> EvalResult {
    EvalResult::Number(Num::ratio(n, d).unwrap())
}

fn text(s: &str) -> EvalResult {
    EvalResult::Str(s.to_string())
}

#[test]
fn test_eval_ast() {
    test_eval("1+1", num(2));
    test_eval("1-1", num(0));
    test_eval("1*1", num(1));
    test_eval("1/1", num(1));
    test_eval("1>1", num(0));
    test_eval("1>=1", num(1));
    test_eval("1<1", num(0));
    test_eval("1<=1", num(1));
    test_eval("1==1", num(1));
    test_eval("1!=1", num(0));
    test_eval("1 and 1", num(1));
    test_eval("1 or 1", num(1));
    test_eval("1 and 0", num(0));
    test_eval("1 or 0", num(1));
    test_eval("-1", num(-1));
    test_eval("not 1", num(0));
    test_eval("true", num(1));
    test_eval("false", num(0));
    test_eval("1+2*3", num(7));
    test_eval("(1+2)*3", num(9));
    test_eval("1+2*3+4/5", rat(39, 5));
    test_eval("1+2*3+4/5*6", rat(59, 5));
    test_eval("\"Hello!\"", text("Hello!"));
    test_eval("\"Hello\"\"World\"", text("Hello\"World"));
    test_eval("\"Hello\" + \" \" + \"World\"", text("Hello World"));
    test_eval("\"abcdefg\" - \"testing\"", text("abcdefg"));
    test_eval("\"abcdefg\" - \"efg\"", text("abcd"));
    test_eval("\"12345\" + 6", text("123456"));
    test_eval("6 + \"12345\"", text("612345"));
    test_eval("\"12345\" - 6", text("12345"));
    test_eval("\"12345\" - 45", text("123"));
    test_eval("\"12345678\" / 2", text("1234"));
    test_eval("\"12345678\" / 3", text("12"));
    test_eval("\"12345678\" / 4", text("12"));
    test_eval("\"12345678\" / 5", text("1"));
    test_eval("\"123\" * 3", text("123123123"));
}

fn test_eval(input: &str, expected: EvalResult) {
    let mut environment = Environment::new_root();
    let mut reporter = ErrorReporter::new();

    let mut scanner = Scanner::new(input);
    scanner.scan_tokens(&mut reporter);

    let mut parser = Parser::new(scanner.tokens);
    let stmts = match parser.parse(&mut reporter) {
        Ok(stmts) => stmts,
        Err(_err) => {
            panic!("Syntax error.");
        }
    };

    match &stmts[0] {
        Stmt::Expression(expr) => match eval_ast(&mut environment, expr, &mut reporter) {
            Ok(result) => assert_eq!(result, expected),
            Err(err) => panic!("{}", err.to_text()),
        },
        _ => {
            panic!("Expected an expression statement.")
        }
    }
}

#[test]
fn string_comparisons_are_lexicographic() {
    test_eval("\"abc\" < \"abd\"", num(1));
    test_eval("\"abc\" < \"abc\"", num(0));
    test_eval("\"abc\" <= \"abc\"", num(1));
    test_eval("\"b\" > \"ab\"", num(1));
    test_eval("\"ab\" < \"abc\"", num(1));
    test_eval("\"abc\" == \"abc\"", num(1));
    test_eval("\"abc\" != \"abd\"", num(1));
}

#[test]
fn unary_on_text_is_a_runtime_error() {
    let mut environment = Environment::new_root();
    let mut reporter = ErrorReporter::new();
    let mut scanner = Scanner::new("-\"abc\"");
    scanner.scan_tokens(&mut reporter);
    let mut parser = Parser::new(scanner.tokens);
    let stmts = parser.parse(&mut reporter).unwrap();
    match &stmts[0] {
        Stmt::Expression(expr) => {
            let r = eval_ast(&mut environment, expr, &mut reporter);
            assert!(r.is_err());
            assert!(reporter.had_runtime_error());
            assert!(!reporter.had_error());
        }
        _ => panic!("Expected an expression statement."),
    }
}

#[test]
fn malformed_number_lexeme_is_a_runtime_error() {
    // The scanner keeps the original behaviour of reading ".5.3" as one
    // number lexeme; evaluating it must fail cleanly, not crash.
    let mut environment = Environment::new_root();
    let mut reporter = ErrorReporter::new();
    let mut scanner = Scanner::new(".5.3");
    scanner.scan_tokens(&mut reporter);
    assert_eq!(scanner.tokens[0].lexeme, ".5.3");
    let mut parser = Parser::new(scanner.tokens);
    let stmts = parser.parse(&mut reporter).unwrap();
    match &stmts[0] {
        Stmt::Expression(expr) => {
            let r = eval_ast(&mut environment, expr, &mut reporter);
            assert!(r.is_err());
            assert!(reporter.had_runtime_error());
        }
        _ => panic!("Expected an expression statement."),
    }
}

#[test]
fn expression_line_comes_from_its_operator() {
    let expr = Expr::Grouping(Box::new(Expr::Literal(Token::new(TokenType::Number, "1", 7))));
    assert_eq!(expr.line(), 7);
    let bin = Expr::Binary(
        Box::new(Expr::Literal(Token::new(TokenType::Number, "1", 2))),
        Token::new(TokenType::Plus, "+", 3),
        Box::new(Expr::Literal(Token::new(TokenType::Number, "2", 3))),
    );
    assert_eq!(bin.line(), 3);
}
