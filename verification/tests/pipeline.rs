use miniscript::environment::Environment;
use miniscript::error_reporter::ErrorReporter;
use miniscript::error_stage::ErrorStage;
use miniscript::scanner::Scanner;
use miniscript::Error;
use miniscript::EvalResult;
use miniscript::Miniscript;
use miniscript::TokenType;

fn run_lines(source: &str) -> (bool, Vec<String>) {
    let mut m = Miniscript::new();
    m.run(source)
}

#[test]
fn precedence_matches_standard_rules() {
    let (_had, lines) = run_lines("print 1+2*3+4/5*6");
    assert_eq!(lines, vec!["11.8".to_string()]);
    let (_had, lines) = run_lines("print (1+2)*3");
    assert_eq!(lines, vec!["9".to_string()]);
}

#[test]
fn string_number_coercion() {
    let (_had, lines) = run_lines("print \"12345\" + 6");
    assert_eq!(lines, vec!["123456".to_string()]);
    let (_had, lines) = run_lines("print 6 + \"12345\"");
    assert_eq!(lines, vec!["612345".to_string()]);
}

#[test]
fn suffix_aware_string_subtraction() {
    let (_had, lines) = run_lines("print \"abcdefg\" - \"efg\"");
    assert_eq!(lines, vec!["abcd".to_string()]);
    let (_had, lines) = run_lines("print \"abcdefg\" - \"testing\"");
    assert_eq!(lines, vec!["abcdefg".to_string()]);
}

#[test]
fn string_repeat_and_slice() {
    let (_had, lines) = run_lines("print \"123\" * 3");
    assert_eq!(lines, vec!["123123123".to_string()]);
    let (_had, lines) = run_lines("print \"12345678\" / 2");
    assert_eq!(lines, vec!["1234".to_string()]);
}

#[test]
fn doubled_quote_escaping_round_trips() {
    let mut reporter = ErrorReporter::new();
    let mut scanner = Scanner::new("\"Hello\"\"World\"");
    scanner.scan_tokens(&mut reporter);
    assert_eq!(scanner.tokens.len(), 2);
    assert_eq!(scanner.tokens[0].token_type, TokenType::String);
    assert_eq!(scanner.tokens[0].lexeme, "\"Hello\"\"World\"");
    assert!(!reporter.had_error());

    let (_had, lines) = run_lines("print \"Hello\"\"World\"");
    assert_eq!(lines, vec!["Hello\"World".to_string()]);
}

#[test]
fn assignment_is_right_associative_and_persists() {
    let mut m = Miniscript::new();
    let (had1, _l1) = m.run("a = 1");
    let (had2, _l2) = m.run("a = a + 1");
    let (had3, lines) = m.run("print a");
    assert!(!had1 && !had2 && !had3);
    assert!(!m.had_error);
    assert!(!m.had_runtime_error);
    assert_eq!(lines, vec!["2".to_string()]);

    let mut m2 = Miniscript::new();
    m2.run("a = b = 2");
    let (_had, lines) = m2.run("print a + b");
    assert_eq!(lines, vec!["4".to_string()]);
}

#[test]
fn syntax_error_recovery_at_statement_boundary() {
    // The first statement is malformed (its group never closes); the
    // second still runs.
    let (had_error, lines) = run_lines("(1; print 2");
    assert!(had_error);
    assert_eq!(lines[0], "2");
    // The rest of the lines are the diagnostic dump.
    assert!(lines.len() > 1);
    assert!(lines[1].contains("Compile Error"));
}

#[test]
fn unresolved_identifier_reports_one_runtime_error() {
    let mut m = Miniscript::new();
    let (had_error, lines) = m.run("foo");
    assert!(!had_error);
    assert!(m.had_runtime_error);
    assert_eq!(lines.len(), 1);
    assert_eq!(
        lines[0],
        "[line 1] Runtime Error: Undefined Identifier: 'foo' is unknown in this context."
    );
}

#[test]
fn rescanning_the_same_source_is_idempotent() {
    let source = "a = 1 + 2 // and a comment\nprint \"done\"";
    let mut r1 = ErrorReporter::new();
    let mut s1 = Scanner::new(source);
    s1.scan_tokens(&mut r1);
    let mut r2 = ErrorReporter::new();
    let mut s2 = Scanner::new(source);
    s2.scan_tokens(&mut r2);
    assert_eq!(s1.tokens, s2.tokens);
}

#[test]
fn division_by_zero_is_a_runtime_error() {
    let mut m = Miniscript::new();
    let (_had, lines) = m.run("print 1/0");
    assert!(m.had_runtime_error);
    assert_eq!(lines.len(), 1);
    assert_eq!(lines[0], "[line 1] Runtime Error: Division by zero.");
}

#[test]
fn invalid_assignment_target_is_a_runtime_error() {
    let mut m = Miniscript::new();
    let (_had, lines) = m.run("1 = 2");
    assert!(m.had_runtime_error);
    assert_eq!(lines.len(), 1);
    assert_eq!(lines[0], "[line 1] Runtime Error: Invalid assignment target: 1");
}

#[test]
fn unexpected_character_is_reported_and_skipped() {
    let mut m = Miniscript::new();
    let (had_error, lines) = m.run("@ print 3");
    assert!(had_error);
    assert_eq!(lines[0], "3");
    assert!(lines[1].contains("Unexpected character: @"));
}

#[test]
fn consecutive_same_line_diagnostics_collapse_in_the_dump() {
    let mut m = Miniscript::new();
    let (had_error, lines) = m.run("@ @");
    assert!(had_error);
    // Two diagnostics on the same line dump as one.
    assert_eq!(lines.len(), 1);
}

#[test]
fn unterminated_string_reports_its_starting_line() {
    let mut reporter = ErrorReporter::new();
    let mut scanner = Scanner::new("\n\"abc");
    scanner.scan_tokens(&mut reporter);
    assert!(reporter.had_error());
    let dumped = reporter.dump_lines();
    assert_eq!(dumped.len(), 1);
    assert_eq!(dumped[0], "[line 2] Compile Error: Unterminated string.");
}

#[test]
fn bare_bang_is_a_scan_error_but_bang_equal_scans() {
    let mut reporter = ErrorReporter::new();
    let mut scanner = Scanner::new("1 != 2");
    scanner.scan_tokens(&mut reporter);
    assert!(!reporter.had_error());
    assert_eq!(scanner.tokens[1].token_type, TokenType::BangEqual);

    let mut reporter2 = ErrorReporter::new();
    let mut scanner2 = Scanner::new("!");
    scanner2.scan_tokens(&mut reporter2);
    assert!(reporter2.had_error());
}

#[test]
fn keywords_resolve_against_the_fixed_table() {
    let mut reporter = ErrorReporter::new();
    let mut scanner = Scanner::new("and andes print printer null");
    scanner.scan_tokens(&mut reporter);
    let kinds: Vec<TokenType> = scanner.tokens.iter().map(|t| t.token_type).collect();
    assert_eq!(
        kinds,
        vec![
            TokenType::And,
            TokenType::Identifier,
            TokenType::Print,
            TokenType::Identifier,
            TokenType::Null,
            TokenType::EOF,
        ]
    );
}

#[test]
fn comments_run_to_end_of_line() {
    let mut m = Miniscript::new();
    let (had_error, lines) = m.run("print 5 // print 9");
    assert!(!had_error);
    assert_eq!(lines, vec!["5".to_string()]);
}

#[test]
fn expression_statement_result_is_echoed() {
    // A bare expression's value is the run's last value and is shown.
    let mut m = Miniscript::new();
    let (_had, lines) = m.run("1 + 2");
    assert_eq!(lines, vec!["3".to_string()]);
}

#[test]
fn last_value_is_stored_under_the_reserved_name() {
    let mut m = Miniscript::new();
    m.run("2 * 21");
    let (_had, lines) = m.run("print _");
    assert_eq!(lines, vec!["42".to_string()]);
}

#[test]
fn environment_chain_lookup_and_scoping() {
    let mut root = Environment::new_root();
    root.set("x", &EvalResult::Str("outer".to_string()));
    let mut child = Environment::new_child(root);
    assert!(!child.contains("x"));
    assert_eq!(child.get("x").unwrap(), EvalResult::Str("outer".to_string()));
    child.set("x", &EvalResult::Str("inner".to_string()));
    assert!(child.contains("x"));
    assert_eq!(child.get("x").unwrap(), EvalResult::Str("inner".to_string()));
    child.remove("x");
    assert_eq!(child.get("x").unwrap(), EvalResult::Str("outer".to_string()));
    child.set("y", &EvalResult::Null);
    child.clear();
    assert!(!child.contains("y"));
    let e = child.get("nope").unwrap_err();
    assert_eq!(e, "Undefined Identifier: 'nope' is unknown in this context.");
}

#[test]
fn diagnostic_text_format() {
    let e = Error::new(3, " at 'x'", "boom", ErrorStage::Compile);
    assert_eq!(e.to_text(), "[line 3] Compile Error at 'x': boom");
    let e2 = Error::new(9, "", "bad", ErrorStage::Runtime);
    assert_eq!(e2.to_text(), "[line 9] Runtime Error: bad");
}

#[test]
fn logical_operators_short_circuit() {
    // `and` on a falsy left side never evaluates the right side, so the
    // unresolved identifier there reports nothing.
    let mut m = Miniscript::new();
    let (_had, lines) = m.run("0 and missing");
    assert!(!m.had_runtime_error);
    assert_eq!(lines, vec!["0".to_string()]);
    let mut m2 = Miniscript::new();
    let (_had2, lines2) = m2.run("1 or missing");
    assert!(!m2.had_runtime_error);
    assert_eq!(lines2, vec!["1".to_string()]);
}

#[test]
fn mixed_null_operand_is_an_unknown_operation() {
    let mut m = Miniscript::new();
    let (_had, lines) = m.run("null + 1");
    assert!(m.had_runtime_error);
    assert_eq!(lines[0], "[line 1] Runtime Error: Unknown operation type.");
}

#[test]
fn string_times_string_is_invalid() {
    let mut m = Miniscript::new();
    let (_had, lines) = m.run("\"a\" * \"b\"");
    assert!(m.had_runtime_error);
    assert_eq!(lines[0], "[line 1] Runtime Error: Invalid string/string operation.");
}

#[test]
fn numeric_overflow_is_a_runtime_error() {
    let mut m = Miniscript::new();
    let (_had, lines) = m.run("9223372036854775807 + 1");
    assert!(m.had_runtime_error);
    assert_eq!(lines[0], "[line 1] Runtime Error: Numeric overflow.");
}

#[test]
fn string_sliced_by_nonpositive_numbers() {
    // Slicing by a value whose ceiling is zero cannot be computed.
    let mut m = Miniscript::new();
    let (_had, lines) = m.run("\"abcd\" / 0");
    assert!(m.had_runtime_error);
    assert_eq!(lines[0], "[line 1] Runtime Error: Invalid string/number operation.");
    // A negative ceiling truncates the string to nothing.
    let mut m2 = Miniscript::new();
    let (_had2, lines2) = m2.run("print \"abcd\" / -1");
    assert!(!m2.had_runtime_error);
    assert_eq!(lines2, vec!["".to_string()]);
}

#[test]
fn fractional_arithmetic_is_exact() {
    let (_had, lines) = run_lines("print 1.5 * 2");
    assert_eq!(lines, vec!["3".to_string()]);
    let (_had, lines) = run_lines("print 0.1 + 0.2");
    assert_eq!(lines, vec!["0.3".to_string()]);
}

#[test]
fn missing_statement_separator_is_reported() {
    let mut m = Miniscript::new();
    let (had_error, lines) = m.run("1 2");
    assert!(had_error);
    assert!(lines[0].contains("Expected ';', EOL, or EOF."));
}

#[test]
fn number_minus_string_is_invalid() {
    let mut m = Miniscript::new();
    let (_had, lines) = m.run("1 - \"a\"");
    assert!(m.had_runtime_error);
    assert_eq!(lines[0], "[line 1] Runtime Error: Invalid number/string operation.");
}

#[test]
fn unexpected_token_at_statement_start_is_reported() {
    // A statement that cannot even begin still leaves a diagnostic, and
    // the statement after the separator runs.
    let mut m = Miniscript::new();
    let (had_error, lines) = m.run(") ; 7");
    assert!(had_error);
    assert_eq!(lines[0], "7");
    assert_eq!(lines[1], "[line 1] Compile Error at ')': Unexpected token.");
}
