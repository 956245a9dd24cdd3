use script_lexer::Scanner;
use script_lexer::TokenKind;

fn lexer_test(
    source: String,
    expected_tokens: Vec<TokenKind>,
    expected_lexemes: Vec<&str>,
    expected_errors: Vec<&str>,
) {
    let mut scanner = Scanner::new(source);
    scanner.scan();
    scanner.comb();

    println!("{:?}", scanner.tokens);

    assert!(scanner.errors.expect_errors(expected_errors));

    assert_eq!(scanner.tokens.len(), expected_tokens.len());
    for (i, token) in scanner.tokens.iter().enumerate() {
        assert_eq!(token.kind, expected_tokens[i]);
        assert_eq!(token.lexeme, expected_lexemes[i].to_string());
    }
}

#[test]
fn test_basic_tokens() {
    lexer_test(
        "()[]-+.,;*/".to_string(),
        vec![
            TokenKind::LPAREN,
            TokenKind::RPAREN,
            TokenKind::LBRACKET,
            TokenKind::RBRACKET,
            TokenKind::MINUS,
            TokenKind::PLUS,
            TokenKind::DOT,
            TokenKind::COMMA,
            TokenKind::SEMICOLON,
            TokenKind::MULTIPLY,
            TokenKind::DIVIDE,
        ],
        vec!["(", ")", "[", "]", "-", "+", ".", ",", ";", "*", "/"],
        vec![],
    );
}

#[test]
fn test_multi_char_tokens() {
    lexer_test(
        "== != >= <= && ||".to_string(),
        vec![
            TokenKind::EQUAL,
            TokenKind::NOTEQUAL,
            TokenKind::GREATEREQUAL,
            TokenKind::LESSEQUAL,
            TokenKind::AND,
            TokenKind::OR,
        ],
        vec!["==", "!=", ">=", "<=", "&&", "||"],
        vec![],
    );
}

#[test]
fn test_comments() {
    lexer_test(
        "() []; # this comment keeps going and should be ignored\n ==;".to_string(),
        vec![
            TokenKind::LPAREN,
            TokenKind::RPAREN,
            TokenKind::LBRACKET,
            TokenKind::RBRACKET,
            TokenKind::SEMICOLON,
            TokenKind::EQUAL,
            TokenKind::SEMICOLON,
        ],
        vec!["(", ")", "[", "]", ";", "==", ";"],
        vec![],
    );
}

#[test]
fn test_string_literals() {
    lexer_test(
        "let myString = \"Hello, world!\";".to_string(),
        vec![
            TokenKind::LET,
            TokenKind::IDENTIFIER,
            TokenKind::ASSIGN,
            TokenKind::STRING,
            TokenKind::SEMICOLON,
        ],
        vec!["let", "myString", "=", "Hello, world!", ";"],
        vec![],
    );

    lexer_test(
        "let myString = 'Hello, world!';".to_string(),
        vec![
            TokenKind::LET,
            TokenKind::IDENTIFIER,
            TokenKind::ASSIGN,
            TokenKind::STRING,
            TokenKind::SEMICOLON,
        ],
        vec!["let", "myString", "=", "Hello, world!", ";"],
        vec![],
    );
}

#[test]
fn test_string_literal_with_escape() {
    lexer_test(
        "let myString = \"Hello, \\n world!\";".to_string(),
        vec![
            TokenKind::LET,
            TokenKind::IDENTIFIER,
            TokenKind::ASSIGN,
            TokenKind::STRING,
            TokenKind::SEMICOLON,
        ],
        vec!["let", "myString", "=", "Hello, \\n world!", ";"],
        vec![],
    );

    let raw_string = r#"let myString = "Hello, \" world!";"#;

    lexer_test(
        raw_string.to_string(),
        vec![
            TokenKind::LET,
            TokenKind::IDENTIFIER,
            TokenKind::ASSIGN,
            TokenKind::STRING,
            TokenKind::SEMICOLON,
        ],
        vec!["let", "myString", "=", "Hello, \\\" world!", ";"],
        vec![],
    );
}

#[test]
fn test_identifiers() {
    lexer_test(
        "let myVar = 1234; let myFloat = 12.34;".to_string(),
        vec![
            TokenKind::LET,
            TokenKind::IDENTIFIER,
            TokenKind::ASSIGN,
            TokenKind::NUMBER,
            TokenKind::SEMICOLON,
            TokenKind::LET,
            TokenKind::IDENTIFIER,
            TokenKind::ASSIGN,
            TokenKind::NUMBER,
            TokenKind::SEMICOLON,
        ],
        vec![
            "let", "myVar", "=", "1234", ";", "let", "myFloat", "=", "12.34", ";",
        ],
        vec![],
    );
}

#[test]
fn test_keywords() {
    lexer_test(
        "return let if else for while struct use identifier".to_string(),
        vec![
            TokenKind::RETURN,
            TokenKind::LET,
            TokenKind::IF,
            TokenKind::ELSE,
            TokenKind::FOR,
            TokenKind::WHILE,
            TokenKind::STRUCT,
            TokenKind::USE,
            TokenKind::IDENTIFIER,
        ],
        vec![
            "return",
            "let",
            "if",
            "else",
            "for",
            "while",
            "struct",
            "use",
            "identifier",
        ],
        vec![],
    );
}

#[test]
fn test_combing() {
    lexer_test(
        "let a = 5\n let b = 6\n".to_string(),
        vec![
            TokenKind::LET,
            TokenKind::IDENTIFIER,
            TokenKind::ASSIGN,
            TokenKind::NUMBER,
            TokenKind::SEMICOLON,
            TokenKind::LET,
            TokenKind::IDENTIFIER,
            TokenKind::ASSIGN,
            TokenKind::NUMBER,
            TokenKind::SEMICOLON,
        ],
        vec!["let", "a", "=", "5", "\n", "let", "b", "=", "6", "\n"],
        vec![],
    );
}
