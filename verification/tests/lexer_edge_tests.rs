use script_lexer::ErrorKind;
use script_lexer::InterpreterErrors;
use script_lexer::Scanner;
use script_lexer::TokenKind;

fn run_lexer(source: &str) -> Scanner {
    let mut scanner = Scanner::new(source.to_string());
    scanner.scan();
    scanner.comb();
    scanner
}

fn check(source: &str, expected: Vec<(TokenKind, &str)>, expected_errors: Vec<&str>) {
    let scanner = run_lexer(source);
    assert!(scanner.errors.expect_errors(expected_errors));
    assert_eq!(scanner.tokens.len(), expected.len());
    for (i, token) in scanner.tokens.iter().enumerate() {
        assert_eq!(token.kind, expected[i].0);
        assert_eq!(token.lexeme, expected[i].1.to_string());
    }
}

#[test]
fn test_lone_ampersand() {
    check("&", vec![], vec!["Lexer error"]);
}

#[test]
fn test_lone_pipe() {
    check("|", vec![], vec!["Lexer error"]);
}

#[test]
fn test_lone_logical_between_identifiers() {
    check(
        "a & b",
        vec![(TokenKind::IDENTIFIER, "a"), (TokenKind::IDENTIFIER, "b")],
        vec!["Lexer error"],
    );
}

#[test]
fn test_multiple_decimals() {
    check(
        "12.3.4",
        vec![
            (TokenKind::NUMBER, "12.3"),
            (TokenKind::DOT, "."),
            (TokenKind::NUMBER, "4"),
        ],
        vec!["Invalid number contains more than one decimal"],
    );
}

#[test]
fn test_number_with_trailing_dot() {
    check("12.", vec![(TokenKind::NUMBER, "12.")], vec![]);
}

#[test]
fn test_keyword_exactness() {
    check(
        "if elif else let for use struct while return identifier",
        vec![
            (TokenKind::IF, "if"),
            (TokenKind::ELIF, "elif"),
            (TokenKind::ELSE, "else"),
            (TokenKind::LET, "let"),
            (TokenKind::FOR, "for"),
            (TokenKind::USE, "use"),
            (TokenKind::STRUCT, "struct"),
            (TokenKind::WHILE, "while"),
            (TokenKind::RETURN, "return"),
            (TokenKind::IDENTIFIER, "identifier"),
        ],
        vec![],
    );
}

#[test]
fn test_keyword_prefix_is_identifier() {
    check(
        "iff letx whiles",
        vec![
            (TokenKind::IDENTIFIER, "iff"),
            (TokenKind::IDENTIFIER, "letx"),
            (TokenKind::IDENTIFIER, "whiles"),
        ],
        vec![],
    );
}

#[test]
fn test_identifier_with_digits_and_underscores() {
    check("a1_b2", vec![(TokenKind::IDENTIFIER, "a1_b2")], vec![]);
}

#[test]
fn test_leading_underscore_is_unexpected() {
    check("_x", vec![(TokenKind::IDENTIFIER, "x")], vec!["Unexpected token"]);
}

#[test]
fn test_unexpected_character() {
    check("@", vec![], vec!["Unexpected token"]);
}

#[test]
fn test_colon_is_unexpected() {
    check(":", vec![], vec!["Unexpected token"]);
}

#[test]
fn test_unterminated_string_at_end_of_input() {
    check("\"abc", vec![(TokenKind::STRING, "abc")], vec!["Unterminated string"]);
}

#[test]
fn test_unterminated_string_at_newline() {
    check(
        "\"abc\nx",
        vec![
            (TokenKind::STRING, "abc"),
            (TokenKind::SEMICOLON, "\n"),
            (TokenKind::IDENTIFIER, "x"),
        ],
        vec!["Unterminated string"],
    );
}

#[test]
fn test_empty_string_literal() {
    check("\"\"", vec![(TokenKind::STRING, "")], vec![]);
}

#[test]
fn test_escaped_backslashes_kept_verbatim() {
    check("\"a\\\\b\"", vec![(TokenKind::STRING, "a\\\\b")], vec![]);
}

#[test]
fn test_empty_source() {
    check("", vec![], vec![]);
}

#[test]
fn test_only_newlines() {
    check("\n\n\n", vec![], vec![]);
}

#[test]
fn test_operator_fallbacks() {
    check(
        "% ** // ! < > =",
        vec![
            (TokenKind::MODULO, "%"),
            (TokenKind::RAISETO, "**"),
            (TokenKind::INTEGERDIVIDE, "//"),
            (TokenKind::NOT, "!"),
            (TokenKind::LESS, "<"),
            (TokenKind::GREATER, ">"),
            (TokenKind::ASSIGN, "="),
        ],
        vec![],
    );
}

#[test]
fn test_braces() {
    check("{}", vec![(TokenKind::LBRACE, "{"), (TokenKind::RBRACE, "}")], vec![]);
}

#[test]
fn test_newline_before_dot_deleted() {
    check(
        "a\n.b",
        vec![
            (TokenKind::IDENTIFIER, "a"),
            (TokenKind::DOT, "."),
            (TokenKind::IDENTIFIER, "b"),
        ],
        vec![],
    );
}

#[test]
fn test_newline_before_logical_operator_deleted() {
    check(
        "a\n&& b",
        vec![
            (TokenKind::IDENTIFIER, "a"),
            (TokenKind::AND, "&&"),
            (TokenKind::IDENTIFIER, "b"),
        ],
        vec![],
    );
}

#[test]
fn test_newline_after_semicolon_deleted() {
    check(
        "a;\nb",
        vec![
            (TokenKind::IDENTIFIER, "a"),
            (TokenKind::SEMICOLON, ";"),
            (TokenKind::IDENTIFIER, "b"),
        ],
        vec![],
    );
}

#[test]
fn test_newline_after_comma_deleted() {
    check(
        "a,\nb",
        vec![
            (TokenKind::IDENTIFIER, "a"),
            (TokenKind::COMMA, ","),
            (TokenKind::IDENTIFIER, "b"),
        ],
        vec![],
    );
}

#[test]
fn test_comb_is_idempotent() {
    let mut scanner = Scanner::new("let a = 5\n let b = 6\n # trailing\n".to_string());
    scanner.scan();
    scanner.comb();
    let kinds: Vec<TokenKind> = scanner.tokens.iter().map(|t| t.kind).collect();
    let lexemes: Vec<String> = scanner.tokens.iter().map(|t| t.lexeme.clone()).collect();
    scanner.comb();
    let kinds_again: Vec<TokenKind> = scanner.tokens.iter().map(|t| t.kind).collect();
    let lexemes_again: Vec<String> = scanner.tokens.iter().map(|t| t.lexeme.clone()).collect();
    assert_eq!(kinds, kinds_again);
    assert_eq!(lexemes, lexemes_again);
    assert!(kinds.iter().all(|k| *k != TokenKind::NEWLINE));
}

#[test]
fn test_scan_reaches_end_of_input() {
    let mut scanner = Scanner::new("let a = \"unterminated\u{7}\n12.3.4 &".to_string());
    scanner.scan();
    assert_eq!(scanner.current, scanner.length);
    assert!(scanner.errors.has_errors());
}

#[test]
fn test_error_collector() {
    let mut errors = InterpreterErrors::new();
    assert!(!errors.has_errors());
    assert!(errors.expect_errors(vec![]));
    errors.add_error("first".to_string(), ErrorKind::PARSER);
    errors.add_error("second".to_string(), ErrorKind::RUNTIME);
    assert!(errors.has_errors());
    assert!(errors.expect_errors(vec!["first", "second"]));
    assert!(!errors.expect_errors(vec!["second", "first"]));
    assert!(!errors.expect_errors(vec!["first"]));
}
