//! Tokens and token kinds: the value model that the scanner produces and the
//! comb pass rewrites.

use vstd::prelude::*;

verus! {

/// The closed set of token kinds.
///
/// `NEWLINE` is transient: the scanner emits it for every line break and the
/// comb pass removes or rewrites every occurrence. `EOF` is the sentinel a
/// consumer may append when walking past the last token, `UNKNOWN` is
/// reserved, and `COLON` has no scan rule yet: none of the three is produced
/// by the scanner itself.
#[derive(Debug, Clone, Copy, PartialEq, Eq, Structural)]
#[allow(non_camel_case_types)]
pub enum TokenKind {
    LPAREN,
    RPAREN,
    LBRACE,
    LBRACKET,
    RBRACKET,
    RBRACE,
    COMMA,
    DOT,
    SEMICOLON,
    COLON,
    MINUS,
    PLUS,
    MULTIPLY,
    DIVIDE,
    INTEGERDIVIDE,
    MODULO,
    RAISETO,
    EQUAL,
    NOTEQUAL,
    GREATER,
    GREATEREQUAL,
    LESS,
    LESSEQUAL,
    AND,
    OR,
    NOT,
    ASSIGN,
    IDENTIFIER,
    STRING,
    NUMBER,
    IF,
    ELIF,
    ELSE,
    LET,
    FOR,
    USE,
    STRUCT,
    WHILE,
    RETURN,
    EOF,
    UNKNOWN,
    NEWLINE,
}

/// Mathematical model of a token: its kind, the text it was built from, and
/// the line and column the scanner stood at when the token was completed.
#[verifier::ext_equal]
pub struct TokenModel {
    pub kind: TokenKind,
    pub lexeme: Seq<char>,
    pub line: int,
    pub column: int,
}

/// One token.
///
/// `lexeme` is the exact source substring the token was built from; for a
/// string literal it is the content with the delimiters stripped and any
/// escape sequences kept verbatim. `line` and `column` are 1-based and give
/// the scanner's position just past the end of the lexeme.
#[derive(Debug)]
pub struct Token {
    pub kind: TokenKind,
    pub lexeme: String,
    pub line: usize,
    pub column: usize,
}

impl View for Token {
    type V = TokenModel;

    open spec fn view(&self) -> TokenModel {
        TokenModel {
            kind: self.kind,
            lexeme: self.lexeme@,
            line: self.line as int,
            column: self.column as int,
        }
    }
}

impl DeepView for Token {
    type V = TokenModel;

    open spec fn deep_view(&self) -> TokenModel {
        self.view()
    }
}

impl Token {
    pub fn new(kind: TokenKind, lexeme: String, line: usize, column: usize) -> (r: Token)
        ensures
            r@ == (TokenModel { kind, lexeme: lexeme@, line: line as int, column: column as int }),
    {
        Token { kind, lexeme, line, column }
    }
}

/// The decimal digits, exactly as the scanner classifies them.
pub open spec fn is_digit(c: char) -> bool {
    c == '0' || c == '1' || c == '2' || c == '3' || c == '4' || c == '5' || c == '6' || c == '7'
        || c == '8' || c == '9'
}

pub fn is_digit_char(c: char) -> (b: bool)
    ensures
        b == is_digit(c),
{
    c == '0' || c == '1' || c == '2' || c == '3' || c == '4' || c == '5' || c == '6' || c == '7'
        || c == '8' || c == '9'
}

/// The kind an identifier lexeme resolves to: one of the nine keywords on an
/// exact, case-sensitive match, `IDENTIFIER` otherwise.
pub open spec fn keyword_kind(s: Seq<char>) -> TokenKind {
    if s == "if"@ {
        TokenKind::IF
    } else if s == "elif"@ {
        TokenKind::ELIF
    } else if s == "else"@ {
        TokenKind::ELSE
    } else if s == "let"@ {
        TokenKind::LET
    } else if s == "for"@ {
        TokenKind::FOR
    } else if s == "use"@ {
        TokenKind::USE
    } else if s == "struct"@ {
        TokenKind::STRUCT
    } else if s == "while"@ {
        TokenKind::WHILE
    } else if s == "return"@ {
        TokenKind::RETURN
    } else {
        TokenKind::IDENTIFIER
    }
}

pub fn identifier_token_type(lexeme: String) -> (kind: TokenKind)
    ensures
        kind == keyword_kind(lexeme@),
{
    if lexeme == "if".to_owned() {
        TokenKind::IF
    } else if lexeme == "elif".to_owned() {
        TokenKind::ELIF
    } else if lexeme == "else".to_owned() {
        TokenKind::ELSE
    } else if lexeme == "let".to_owned() {
        TokenKind::LET
    } else if lexeme == "for".to_owned() {
        TokenKind::FOR
    } else if lexeme == "use".to_owned() {
        TokenKind::USE
    } else if lexeme == "struct".to_owned() {
        TokenKind::STRUCT
    } else if lexeme == "while".to_owned() {
        TokenKind::WHILE
    } else if lexeme == "return".to_owned() {
        TokenKind::RETURN
    } else {
        TokenKind::IDENTIFIER
    }
}

} // verus!
