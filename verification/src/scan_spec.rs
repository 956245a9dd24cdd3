//! The mathematical model of scanning: what one step of the scanner
//! consumes and produces at each position of the source, and what a full
//! scan of the remaining input yields. The executable scanner is proved to
//! follow this model exactly.

use vstd::prelude::*;

use crate::error::ErrorKind;
use crate::error::ErrorModel;
use crate::token::TokenKind;
use crate::token::TokenModel;
use crate::token::is_digit;
use crate::token::keyword_kind;
use crate::unicode::char_alphabetic;
use crate::unicode::char_alphanumeric;

verus! {

/// A position counter one further on. Counters saturate at `usize::MAX`,
/// which no real source buffer can reach, so that position tracking is total
/// without any bound on the input.
pub open spec fn pos_inc(p: int) -> int {
    if p < usize::MAX as int {
        p + 1
    } else {
        p
    }
}

/// The line counter after consuming `c`.
pub open spec fn adv_line(line: int, c: char) -> int {
    if c == '\n' {
        pos_inc(line)
    } else {
        line
    }
}

/// The column counter after consuming `c`: every consumed character moves it
/// one to the right, and a line break resets it to 1.
pub open spec fn adv_col(col: int, c: char) -> int {
    if c == '\n' {
        1
    } else {
        pos_inc(col)
    }
}

/// The line counter after consuming the `k` characters `src[i .. i + k]`,
/// starting from `line`.
pub open spec fn line_after(src: Seq<char>, i: int, k: nat, line: int) -> int
    decreases k,
{
    if k == 0 {
        line
    } else {
        adv_line(line_after(src, i, (k - 1) as nat, line), src[i + k - 1])
    }
}

/// The column counter after consuming the `k` characters `src[i .. i + k]`,
/// starting from `col`.
pub open spec fn col_after(src: Seq<char>, i: int, k: nat, col: int) -> int
    decreases k,
{
    if k == 0 {
        col
    } else {
        adv_col(col_after(src, i, (k - 1) as nat, col), src[i + k - 1])
    }
}

/// Consuming `j + k` characters is consuming `j`, then `k` more.
pub proof fn lemma_pos_after_split(src: Seq<char>, i: int, j: nat, k: nat, line: int, col: int)
    ensures
        line_after(src, i, (j + k) as nat, line) == line_after(
            src,
            i + j,
            k,
            line_after(src, i, j, line),
        ),
        col_after(src, i, (j + k) as nat, col) == col_after(
            src,
            i + j,
            k,
            col_after(src, i, j, col),
        ),
    decreases k,
{
    if k > 0 {
        lemma_pos_after_split(src, i, j, (k - 1) as nat, line, col);
        assert(i + j + (k - 1) == i + (j + k) - 1);
    }
}

/// Consuming one or two characters, written out.
pub proof fn lemma_pos_after_small(src: Seq<char>, i: int, line: int, col: int)
    ensures
        line_after(src, i, 1, line) == adv_line(line, src[i]),
        col_after(src, i, 1, col) == adv_col(col, src[i]),
        line_after(src, i, 2, line) == adv_line(adv_line(line, src[i]), src[i + 1]),
        col_after(src, i, 2, col) == adv_col(adv_col(col, src[i]), src[i + 1]),
{
    assert(line_after(src, i, 0, line) == line);
    assert(col_after(src, i, 0, col) == col);
    assert(line_after(src, i, 1, line) == adv_line(line, src[i]));
    assert(col_after(src, i, 1, col) == adv_col(col, src[i]));
}

/// Number of characters a line comment starting at `i` occupies: everything
/// up to, and not including, the next line break or the end of input.
pub open spec fn comment_len(src: Seq<char>, i: int) -> nat
    decreases src.len() - i,
{
    if 0 <= i < src.len() && src[i] != '\n' {
        (1 + comment_len(src, i + 1)) as nat
    } else {
        0
    }
}

pub proof fn lemma_comment_len_bound(src: Seq<char>, i: int)
    requires
        0 <= i <= src.len(),
    ensures
        i + comment_len(src, i) <= src.len(),
    decreases src.len() - i,
{
    if i < src.len() && src[i] != '\n' {
        lemma_comment_len_bound(src, i + 1);
    }
}

/// Number of characters the tail of an identifier starting at `i` occupies:
/// the longest run of alphanumeric-or-underscore characters.
pub open spec fn ident_len(src: Seq<char>, i: int) -> nat
    decreases src.len() - i,
{
    if 0 <= i < src.len() && (char_alphanumeric(src[i]) || src[i] == '_') {
        (1 + ident_len(src, i + 1)) as nat
    } else {
        0
    }
}

pub proof fn lemma_ident_len_bound(src: Seq<char>, i: int)
    requires
        0 <= i <= src.len(),
    ensures
        i + ident_len(src, i) <= src.len(),
    decreases src.len() - i,
{
    if i < src.len() && (char_alphanumeric(src[i]) || src[i] == '_') {
        lemma_ident_len_bound(src, i + 1);
    }
}

/// Outcome of scanning the tail of a numeric literal from `i` with
/// dot-already-seen state `seen_dot`: how many characters are consumed, and
/// whether a second decimal point was found. A second dot stops the literal
/// without being consumed; so does any character that is neither a digit nor
/// a dot, and so does the end of input.
pub struct NumScan {
    pub consumed: nat,
    pub err: bool,
}

pub open spec fn number_scan(src: Seq<char>, i: int, seen_dot: bool) -> NumScan
    decreases src.len() - i,
{
    if 0 <= i < src.len() {
        let c = src[i];
        if c == '.' {
            if seen_dot {
                NumScan { consumed: 0, err: true }
            } else {
                let r = number_scan(src, i + 1, true);
                NumScan { consumed: (1 + r.consumed) as nat, err: r.err }
            }
        } else if is_digit(c) {
            let r = number_scan(src, i + 1, seen_dot);
            NumScan { consumed: (1 + r.consumed) as nat, err: r.err }
        } else {
            NumScan { consumed: 0, err: false }
        }
    } else {
        NumScan { consumed: 0, err: false }
    }
}

pub proof fn lemma_number_scan_bound(src: Seq<char>, i: int, seen_dot: bool)
    requires
        0 <= i <= src.len(),
    ensures
        i + number_scan(src, i, seen_dot).consumed <= src.len(),
    decreases src.len() - i,
{
    if i < src.len() {
        lemma_number_scan_bound(src, i + 1, true);
        lemma_number_scan_bound(src, i + 1, seen_dot);
    }
}

/// Outcome of scanning a string literal's body from `i`, where `delim` is
/// the delimiter that opened the literal and `escape` says whether the
/// previous consumed character was a backslash: how many characters are
/// consumed (the closing delimiter included when the literal terminates) and
/// whether the literal is unterminated. A line break stops the literal
/// without being consumed; so does the end of input; an escaped delimiter is
/// consumed as content.
pub struct StrScan {
    pub consumed: nat,
    pub err: bool,
}

pub open spec fn string_scan(src: Seq<char>, i: int, delim: char, escape: bool) -> StrScan
    decreases src.len() - i,
{
    if 0 <= i < src.len() {
        let c = src[i];
        if c == delim {
            if escape {
                let r = string_scan(src, i + 1, delim, false);
                StrScan { consumed: (1 + r.consumed) as nat, err: r.err }
            } else {
                StrScan { consumed: 1, err: false }
            }
        } else if c == '\n' {
            StrScan { consumed: 0, err: true }
        } else {
            let r = string_scan(src, i + 1, delim, c == '\\');
            StrScan { consumed: (1 + r.consumed) as nat, err: r.err }
        }
    } else {
        StrScan { consumed: 0, err: true }
    }
}

pub proof fn lemma_string_scan_bound(src: Seq<char>, i: int, delim: char, escape: bool)
    requires
        0 <= i <= src.len(),
    ensures
        i + string_scan(src, i, delim, escape).consumed <= src.len(),
    decreases src.len() - i,
{
    if i < src.len() {
        lemma_string_scan_bound(src, i + 1, delim, false);
        lemma_string_scan_bound(src, i + 1, delim, src[i] == '\\');
    }
}

/// The message of a malformed multi-character operator (a lone `&` or `|`).
pub open spec fn msg_lexer_error() -> Seq<char> {
    "Lexer error"@
}

/// The message of a string literal that never closes.
pub open spec fn msg_unterminated_string() -> Seq<char> {
    "Unterminated string"@
}

/// The message of a numeric literal with a second decimal point.
pub open spec fn msg_multiple_decimals() -> Seq<char> {
    "Invalid number contains more than one decimal"@
}

/// The message of a character no scan rule recognises.
pub open spec fn msg_unexpected_token() -> Seq<char> {
    "Unexpected token"@
}

/// A lexical diagnostic with the given message.
pub open spec fn lex_err(msg: Seq<char>) -> ErrorModel {
    ErrorModel { kind: ErrorKind::LEXER, message: msg }
}

/// What one iteration of the scan loop does at position `i`: how many
/// characters it consumes (always at least one), the line and column
/// counters afterwards, and the token and diagnostic it produces, each
/// either absent or a single entry.
pub struct Step {
    pub consumed: nat,
    pub line: int,
    pub col: int,
    pub tokens: Seq<TokenModel>,
    pub errors: Seq<ErrorModel>,
}

/// A step that consumes `k` characters and produces no token.
pub open spec fn step_plain(
    src: Seq<char>,
    i: int,
    line: int,
    col: int,
    k: nat,
    errors: Seq<ErrorModel>,
) -> Step {
    Step {
        consumed: k,
        line: line_after(src, i, k, line),
        col: col_after(src, i, k, col),
        tokens: seq![],
        errors,
    }
}

/// A step that consumes `k` characters and produces one token, stamped with
/// the position just past the end of the consumed text.
pub open spec fn step_with_token(
    src: Seq<char>,
    i: int,
    line: int,
    col: int,
    k: nat,
    kind: TokenKind,
    lexeme: Seq<char>,
    errors: Seq<ErrorModel>,
) -> Step {
    let line2 = line_after(src, i, k, line);
    let col2 = col_after(src, i, k, col);
    Step {
        consumed: k,
        line: line2,
        col: col2,
        tokens: seq![TokenModel { kind, lexeme, line: line2, column: col2 }],
        errors,
    }
}

/// A step on one of `* / ! < > =`: if the next character is the designated
/// pairing character, both are consumed and the two-character token is
/// produced; otherwise the single-character fallback.
pub open spec fn step_double(
    src: Seq<char>,
    i: int,
    line: int,
    col: int,
    single_kind: TokenKind,
    pair: char,
    double_kind: TokenKind,
) -> Step {
    if i + 1 < src.len() && src[i + 1] == pair {
        step_with_token(src, i, line, col, 2, double_kind, src.subrange(i, i + 2), seq![])
    } else {
        step_with_token(src, i, line, col, 1, single_kind, src.subrange(i, i + 1), seq![])
    }
}

/// One step of the scanner at position `i` of `src`, with the line and
/// column counters standing at `line` and `col`. Requires `0 <= i <
/// src.len()`; every branch consumes at least one character.
pub open spec fn spec_step(src: Seq<char>, i: int, line: int, col: int) -> Step
    recommends
        0 <= i < src.len(),
{
    let c = src[i];
    if c == '#' {
        step_plain(src, i, line, col, (1 + comment_len(src, i + 1)) as nat, seq![])
    } else if c == '(' {
        step_with_token(src, i, line, col, 1, TokenKind::LPAREN, src.subrange(i, i + 1), seq![])
    } else if c == ')' {
        step_with_token(src, i, line, col, 1, TokenKind::RPAREN, src.subrange(i, i + 1), seq![])
    } else if c == '[' {
        step_with_token(src, i, line, col, 1, TokenKind::LBRACKET, src.subrange(i, i + 1), seq![])
    } else if c == ']' {
        step_with_token(src, i, line, col, 1, TokenKind::RBRACKET, src.subrange(i, i + 1), seq![])
    } else if c == '{' {
        step_with_token(src, i, line, col, 1, TokenKind::LBRACE, src.subrange(i, i + 1), seq![])
    } else if c == '}' {
        step_with_token(src, i, line, col, 1, TokenKind::RBRACE, src.subrange(i, i + 1), seq![])
    } else if c == ',' {
        step_with_token(src, i, line, col, 1, TokenKind::COMMA, src.subrange(i, i + 1), seq![])
    } else if c == '.' {
        step_with_token(src, i, line, col, 1, TokenKind::DOT, src.subrange(i, i + 1), seq![])
    } else if c == '-' {
        step_with_token(src, i, line, col, 1, TokenKind::MINUS, src.subrange(i, i + 1), seq![])
    } else if c == '+' {
        step_with_token(src, i, line, col, 1, TokenKind::PLUS, src.subrange(i, i + 1), seq![])
    } else if c == ';' {
        step_with_token(src, i, line, col, 1, TokenKind::SEMICOLON, src.subrange(i, i + 1), seq![])
    } else if c == '%' {
        step_with_token(src, i, line, col, 1, TokenKind::MODULO, src.subrange(i, i + 1), seq![])
    } else if c == '*' {
        step_double(src, i, line, col, TokenKind::MULTIPLY, '*', TokenKind::RAISETO)
    } else if c == '/' {
        step_double(src, i, line, col, TokenKind::DIVIDE, '/', TokenKind::INTEGERDIVIDE)
    } else if c == '!' {
        step_double(src, i, line, col, TokenKind::NOT, '=', TokenKind::NOTEQUAL)
    } else if c == '<' {
        step_double(src, i, line, col, TokenKind::LESS, '=', TokenKind::LESSEQUAL)
    } else if c == '>' {
        step_double(src, i, line, col, TokenKind::GREATER, '=', TokenKind::GREATEREQUAL)
    } else if c == '=' {
        step_double(src, i, line, col, TokenKind::ASSIGN, '=', TokenKind::EQUAL)
    } else if c == '&' || c == '|' {
        if i + 1 < src.len() && src[i + 1] == c {
            step_with_token(
                src,
                i,
                line,
                col,
                2,
                if c == '&' {
                    TokenKind::AND
                } else {
                    TokenKind::OR
                },
                src.subrange(i, i + 2),
                seq![],
            )
        } else {
            step_plain(src, i, line, col, 1, seq![lex_err(msg_lexer_error())])
        }
    } else if c == '"' || c == '\'' {
        let r = string_scan(src, i + 1, c, false);
        let k = (1 + r.consumed) as nat;
        let content = if r.err {
            src.subrange(i + 1, i + 1 + r.consumed)
        } else {
            src.subrange(i + 1, i + r.consumed as int)
        };
        step_with_token(
            src,
            i,
            line,
            col,
            k,
            TokenKind::STRING,
            content,
            if r.err {
                seq![lex_err(msg_unterminated_string())]
            } else {
                seq![]
            },
        )
    } else if c == ' ' || c == '\t' {
        step_plain(src, i, line, col, 1, seq![])
    } else if c == '\n' {
        step_with_token(src, i, line, col, 1, TokenKind::NEWLINE, src.subrange(i, i + 1), seq![])
    } else if is_digit(c) {
        let r = number_scan(src, i + 1, false);
        let k = (1 + r.consumed) as nat;
        step_with_token(
            src,
            i,
            line,
            col,
            k,
            TokenKind::NUMBER,
            src.subrange(i, i + k),
            if r.err {
                seq![lex_err(msg_multiple_decimals())]
            } else {
                seq![]
            },
        )
    } else if char_alphabetic(c) {
        let k = (1 + ident_len(src, i + 1)) as nat;
        let lexeme = src.subrange(i, i + k);
        step_with_token(src, i, line, col, k, keyword_kind(lexeme), lexeme, seq![])
    } else {
        step_plain(src, i, line, col, 1, seq![lex_err(msg_unexpected_token())])
    }
}

/// Every step consumes at least one character and never runs past the end
/// of the input, and it emits at most one token and records at most one
/// diagnostic: scanning always advances and never loops forever.
pub proof fn lemma_step_bounds(src: Seq<char>, i: int, line: int, col: int)
    requires
        0 <= i < src.len(),
    ensures
        1 <= spec_step(src, i, line, col).consumed,
        i + spec_step(src, i, line, col).consumed <= src.len(),
        spec_step(src, i, line, col).tokens.len() <= 1,
        spec_step(src, i, line, col).errors.len() <= 1,
{
    let c = src[i];
    lemma_comment_len_bound(src, i + 1);
    lemma_ident_len_bound(src, i + 1);
    lemma_number_scan_bound(src, i + 1, false);
    lemma_string_scan_bound(src, i + 1, c, false);
}

/// A lone `&` or `|`, not followed by its pair, yields exactly one lexical
/// diagnostic and no token for that character, and scanning resumes at the
/// very next character.
pub proof fn lemma_lone_logical_char(src: Seq<char>, i: int, line: int, col: int)
    requires
        0 <= i < src.len(),
        src[i] == '&' || src[i] == '|',
        i + 1 < src.len() ==> src[i + 1] != src[i],
    ensures
        spec_step(src, i, line, col).tokens == Seq::<TokenModel>::empty(),
        spec_step(src, i, line, col).errors == seq![lex_err(msg_lexer_error())],
        spec_step(src, i, line, col).consumed == 1,
{
}

/// The tokens and diagnostics produced by scanning `src` from position `i`
/// to the end of the input.
pub struct ScanOutput {
    pub tokens: Seq<TokenModel>,
    pub errors: Seq<ErrorModel>,
}

pub open spec fn spec_scan(src: Seq<char>, i: int, line: int, col: int) -> ScanOutput
    decreases src.len() - i,
        via spec_scan_decreases
{
    if i < 0 || i >= src.len() {
        ScanOutput { tokens: seq![], errors: seq![] }
    } else {
        let st = spec_step(src, i, line, col);
        let next = if i + st.consumed <= src.len() {
            i + st.consumed
        } else {
            src.len() as int
        };
        let rest = spec_scan(src, next, st.line, st.col);
        ScanOutput { tokens: st.tokens + rest.tokens, errors: st.errors + rest.errors }
    }
}

#[via_fn]
proof fn spec_scan_decreases(src: Seq<char>, i: int, line: int, col: int) {
    if 0 <= i < src.len() {
        lemma_step_bounds(src, i, line, col);
    }
}

} // verus!
