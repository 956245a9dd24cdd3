//! The scanner: a single left-to-right pass over the source text that
//! produces the token sequence and the diagnostic list, proved to follow the
//! model in `scan_spec` exactly.

use vstd::prelude::*;
use vstd::string::StrSliceExecFns;
use vstd::string::StringExecFns;

use crate::error::ErrorKind;
use crate::error::ErrorModel;
use crate::error::InterpreterErrors;
use crate::scan_spec::adv_col;
use crate::scan_spec::adv_line;
use crate::scan_spec::col_after;
use crate::scan_spec::comment_len;
use crate::scan_spec::ident_len;
use crate::scan_spec::lemma_pos_after_small;
use crate::scan_spec::lemma_pos_after_split;
use crate::scan_spec::lemma_step_bounds;
use crate::scan_spec::lex_err;
use crate::scan_spec::line_after;
use crate::scan_spec::msg_lexer_error;
use crate::scan_spec::msg_multiple_decimals;
use crate::scan_spec::msg_unterminated_string;
use crate::scan_spec::number_scan;
use crate::scan_spec::spec_scan;
use crate::scan_spec::spec_step;
use crate::scan_spec::string_scan;
use crate::token::Token;
use crate::token::TokenKind;
use crate::token::TokenModel;
use crate::token::identifier_token_type;
use crate::token::is_digit;
use crate::token::is_digit_char;
use crate::token::keyword_kind;
use crate::unicode::char_alphanumeric;

verus! {

/// Whether a character may continue an identifier.
fn ident_continues(c: char) -> (b: bool)
    ensures
        b == (char_alphanumeric(c) || c == '_'),
{
    c.is_alphanumeric() || c == '_'
}

/// Whether a character may continue a numeric literal whose dot-already-seen
/// state is `seen_dot`.
fn number_continues(c: char, seen_dot: bool) -> (b: bool)
    ensures
        b == (is_digit(c) || (c == '.' && !seen_dot)),
{
    is_digit_char(c) || (c == '.' && !seen_dot)
}

/// Whether a character belongs to the body of a string literal opened by
/// `delim`, given whether the previous consumed character was a backslash.
fn string_continues(c: char, delim: char, escape: bool) -> (b: bool)
    ensures
        b == ((c != delim || escape) && c != '\n'),
{
    (c != delim || escape) && c != '\n'
}

/// The scanner's whole state: the source text it walks (addressed by
/// Unicode scalar value throughout), the tokens and diagnostics produced so
/// far, and the cursor with its 1-based line and column counters.
pub struct Scanner {
    pub source: String,
    pub length: usize,
    pub tokens: Vec<Token>,
    pub current: usize,
    pub errors: InterpreterErrors,
    pub line: usize,
    pub col: usize,
}

impl Scanner {
    /// The cursor stays within the source, whose character count is cached
    /// in `length`.
    pub open spec fn wf(&self) -> bool {
        &&& self.length == self.source@.len()
        &&& self.current <= self.length
    }

    pub fn new(source: String) -> (r: Scanner)
        ensures
            r.wf(),
            r.source@ == source@,
            r.current == 0,
            r.line == 1,
            r.col == 1,
            r.tokens.deep_view() == Seq::<TokenModel>::empty(),
            r.errors@ == Seq::<ErrorModel>::empty(),
    {
        let length = source.as_str().unicode_len();
        let r = Scanner {
            source,
            length,
            tokens: Vec::new(),
            current: 0,
            errors: InterpreterErrors::new(),
            line: 1,
            col: 1,
        };
        proof {
            assert(r.tokens.deep_view() =~= Seq::<TokenModel>::empty());
        }
        r
    }

    /// Consume one character: the cursor moves right, the column counter
    /// follows it, and a line break starts the next line at column 1.
    fn advance(&mut self) -> (c: char)
        requires
            old(self).wf(),
            old(self).current < old(self).length,
        ensures
            final(self).wf(),
            c == old(self).source@[old(self).current as int],
            final(self).source == old(self).source,
            final(self).length == old(self).length,
            final(self).tokens == old(self).tokens,
            final(self).errors == old(self).errors,
            final(self).current == old(self).current + 1,
            final(self).line as int == adv_line(old(self).line as int, c),
            final(self).col as int == adv_col(old(self).col as int, c),
    {
        let c = self.source.as_str().get_char(self.current);
        self.current = self.current + 1;
        if self.col < usize::MAX {
            self.col = self.col + 1;
        }
        if c == '\n' {
            if self.line < usize::MAX {
                self.line = self.line + 1;
            }
            self.col = 1;
        }
        c
    }

    /// Look at the next character without consuming it; if it is `expected`,
    /// consume it and report so.
    fn peek_and_move(&mut self, expected: char) -> (r: bool)
        requires
            old(self).wf(),
        ensures
            final(self).wf(),
            final(self).source == old(self).source,
            final(self).length == old(self).length,
            final(self).tokens == old(self).tokens,
            final(self).errors == old(self).errors,
            r == (old(self).current < old(self).length && old(self).source@[old(
                self,
            ).current as int] == expected),
            r ==> final(self).current == old(self).current + 1 && final(self).line as int
                == adv_line(old(self).line as int, expected) && final(self).col as int == adv_col(
                old(self).col as int,
                expected,
            ),
            !r ==> final(self).current == old(self).current && final(self).line == old(self).line
                && final(self).col == old(self).col,
    {
        if self.current >= self.length {
            return false;
        }
        let c = self.source.as_str().get_char(self.current);
        if c == expected {
            self.advance();
            true
        } else {
            false
        }
    }

    /// The source text between two cursor positions, as an owned string.
    fn lexeme_of(&self, from: usize, to: usize) -> (s: String)
        requires
            self.wf(),
            from <= to <= self.length,
        ensures
            s@ == self.source@.subrange(from as int, to as int),
    {
        self.source.as_str().substring_char(from, to).to_owned()
    }

    /// Append a token stamped with the scanner's position, which at every
    /// call site stands just past the end of the lexeme.
    fn add_token(&mut self, kind: TokenKind, lexeme: String)
        ensures
            final(self).source == old(self).source,
            final(self).length == old(self).length,
            final(self).current == old(self).current,
            final(self).errors == old(self).errors,
            final(self).line == old(self).line,
            final(self).col == old(self).col,
            final(self).tokens.deep_view() == old(self).tokens.deep_view().push(
                TokenModel {
                    kind,
                    lexeme: lexeme@,
                    line: old(self).line as int,
                    column: old(self).col as int,
                },
            ),
    {
        let ghost lex: Seq<char> = lexeme@;
        let t = Token::new(kind, lexeme, self.line, self.col);
        self.tokens.push(t);
        proof {
            assert(self.tokens.deep_view() =~~= old(self).tokens.deep_view().push(
                TokenModel {
                    kind,
                    lexeme: lex,
                    line: old(self).line as int,
                    column: old(self).col as int,
                },
            ));
        }
    }

    /// Discard the body of a line comment: everything up to, and not
    /// including, the next line break or the end of input.
    fn skip_comment(&mut self)
        requires
            old(self).wf(),
        ensures
            final(self).wf(),
            final(self).source == old(self).source,
            final(self).length == old(self).length,
            final(self).tokens == old(self).tokens,
            final(self).errors == old(self).errors,
            final(self).current == old(self).current + comment_len(
                old(self).source@,
                old(self).current as int,
            ),
            final(self).line as int == line_after(
                old(self).source@,
                old(self).current as int,
                comment_len(old(self).source@, old(self).current as int),
                old(self).line as int,
            ),
            final(self).col as int == col_after(
                old(self).source@,
                old(self).current as int,
                comment_len(old(self).source@, old(self).current as int),
                old(self).col as int,
            ),
    {
        let ghost s0 = *self;
        let ghost src = self.source@;
        let ghost i0 = self.current as int;
        let ghost l0 = self.line as int;
        let ghost c0 = self.col as int;
        while self.current < self.length && self.source.as_str().get_char(self.current) != '\n'
            invariant
                self.wf(),
                self.source == s0.source,
                self.length == s0.length,
                self.tokens == s0.tokens,
                self.errors == s0.errors,
                src == self.source@,
                0 <= i0 <= self.current as int,
                comment_len(src, i0) == self.current - i0 + comment_len(
                    src,
                    self.current as int,
                ),
                self.line as int == line_after(src, i0, (self.current - i0) as nat, l0),
                self.col as int == col_after(src, i0, (self.current - i0) as nat, c0),
            decreases self.length - self.current,
        {
            self.advance();
        }
    }

    /// Consume the tail of an identifier greedily, then resolve the whole
    /// lexeme against the keyword table and emit the token.
    fn scan_identifier(&mut self, c: char)
        requires
            old(self).wf(),
            old(self).current >= 1,
            old(self).source@[old(self).current - 1] == c,
        ensures
            final(self).wf(),
            final(self).source == old(self).source,
            final(self).length == old(self).length,
            final(self).errors == old(self).errors,
            ({
                let src = old(self).source@;
                let i = old(self).current as int;
                let k = ident_len(src, i);
                let lexeme = src.subrange(i - 1, i + k);
                &&& final(self).current == old(self).current + k
                &&& final(self).line as int == line_after(src, i, k, old(self).line as int)
                &&& final(self).col as int == col_after(src, i, k, old(self).col as int)
                &&& final(self).tokens.deep_view() == old(self).tokens.deep_view().push(
                    TokenModel {
                        kind: keyword_kind(lexeme),
                        lexeme,
                        line: final(self).line as int,
                        column: final(self).col as int,
                    },
                )
            }),
    {
        let ghost s0 = *self;
        let ghost src = self.source@;
        let ghost i0 = self.current as int;
        let ghost l0 = self.line as int;
        let ghost c0 = self.col as int;
        let start = self.current - 1;
        while self.current < self.length && ident_continues(
            self.source.as_str().get_char(self.current),
        )
            invariant
                self.wf(),
                self.source == s0.source,
                self.length == s0.length,
                self.tokens == s0.tokens,
                self.errors == s0.errors,
                src == self.source@,
                0 <= i0 <= self.current as int,
                ident_len(src, i0) == self.current - i0 + ident_len(src, self.current as int),
                self.line as int == line_after(src, i0, (self.current - i0) as nat, l0),
                self.col as int == col_after(src, i0, (self.current - i0) as nat, c0),
            decreases self.length - self.current,
        {
            self.advance();
        }
        let lexeme = self.lexeme_of(start, self.current);
        let kind = identifier_token_type(lexeme.clone());
        self.add_token(kind, lexeme);
    }

    /// Consume the tail of a numeric literal greedily. A second decimal
    /// point stops the literal, records a diagnostic and stays unconsumed;
    /// whatever was scanned so far is still emitted as a `NUMBER` token.
    fn scan_number(&mut self, c: char)
        requires
            old(self).wf(),
            old(self).current >= 1,
            old(self).source@[old(self).current - 1] == c,
        ensures
            final(self).wf(),
            final(self).source == old(self).source,
            final(self).length == old(self).length,
            ({
                let src = old(self).source@;
                let i = old(self).current as int;
                let r = number_scan(src, i, false);
                &&& final(self).current == old(self).current + r.consumed
                &&& final(self).line as int == line_after(src, i, r.consumed, old(self).line as int)
                &&& final(self).col as int == col_after(src, i, r.consumed, old(self).col as int)
                &&& final(self).tokens.deep_view() == old(self).tokens.deep_view().push(
                    TokenModel {
                        kind: TokenKind::NUMBER,
                        lexeme: src.subrange(i - 1, i + r.consumed),
                        line: final(self).line as int,
                        column: final(self).col as int,
                    },
                )
                &&& final(self).errors@ == old(self).errors@ + (if r.err {
                    seq![lex_err(msg_multiple_decimals())]
                } else {
                    Seq::<ErrorModel>::empty()
                })
            }),
    {
        let ghost s0 = *self;
        let ghost src = self.source@;
        let ghost i0 = self.current as int;
        let ghost l0 = self.line as int;
        let ghost c0 = self.col as int;
        let start = self.current - 1;
        let mut seen_dot = false;
        while self.current < self.length && number_continues(
            self.source.as_str().get_char(self.current),
            seen_dot,
        )
            invariant
                self.wf(),
                self.source == s0.source,
                self.length == s0.length,
                self.tokens == s0.tokens,
                self.errors == s0.errors,
                src == self.source@,
                0 <= i0 <= self.current as int,
                number_scan(src, i0, false).consumed == self.current - i0 + number_scan(
                    src,
                    self.current as int,
                    seen_dot,
                ).consumed,
                number_scan(src, i0, false).err == number_scan(
                    src,
                    self.current as int,
                    seen_dot,
                ).err,
                self.line as int == line_after(src, i0, (self.current - i0) as nat, l0),
                self.col as int == col_after(src, i0, (self.current - i0) as nat, c0),
            decreases self.length - self.current,
        {
            let ch = self.source.as_str().get_char(self.current);
            if ch == '.' {
                seen_dot = true;
            }
            self.advance();
        }
        if self.current < self.length {
            let ch = self.source.as_str().get_char(self.current);
            if ch == '.' {
                self.errors.add_error(
                    "Invalid number contains more than one decimal".to_owned(),
                    ErrorKind::LEXER,
                );
            }
        }
        let lexeme = self.lexeme_of(start, self.current);
        self.add_token(TokenKind::NUMBER, lexeme);
        proof {
            let r = number_scan(src, i0, false);
            if r.err {
                assert(self.errors@ =~= s0.errors@ + seq![lex_err(msg_multiple_decimals())]);
            } else {
                assert(self.errors@ =~= s0.errors@ + Seq::<ErrorModel>::empty());
            }
        }
    }

    /// Consume the body of a string literal opened by the delimiter `c`.
    /// Only that same delimiter closes the literal, and only when the
    /// character before it was not a backslash; a line break or the end of
    /// input leaves it unterminated, which is a diagnostic. The token's
    /// lexeme is the content with the delimiters stripped and escape
    /// sequences kept verbatim.
    fn scan_string(&mut self, c: char)
        requires
            old(self).wf(),
            old(self).current >= 1,
            old(self).source@[old(self).current - 1] == c,
            c == '"' || c == '\'',
        ensures
            final(self).wf(),
            final(self).source == old(self).source,
            final(self).length == old(self).length,
            ({
                let src = old(self).source@;
                let i = old(self).current as int;
                let r = string_scan(src, i, c, false);
                &&& final(self).current == old(self).current + r.consumed
                &&& final(self).line as int == line_after(src, i, r.consumed, old(self).line as int)
                &&& final(self).col as int == col_after(src, i, r.consumed, old(self).col as int)
                &&& final(self).tokens.deep_view() == old(self).tokens.deep_view().push(
                    TokenModel {
                        kind: TokenKind::STRING,
                        lexeme: if r.err {
                            src.subrange(i, i + r.consumed)
                        } else {
                            src.subrange(i, i + r.consumed - 1)
                        },
                        line: final(self).line as int,
                        column: final(self).col as int,
                    },
                )
                &&& final(self).errors@ == old(self).errors@ + (if r.err {
                    seq![lex_err(msg_unterminated_string())]
                } else {
                    Seq::<ErrorModel>::empty()
                })
            }),
    {
        let ghost s0 = *self;
        let ghost src = self.source@;
        let ghost i0 = self.current as int;
        let ghost l0 = self.line as int;
        let ghost c0 = self.col as int;
        let start = self.current;
        let mut escape = false;
        while self.current < self.length && string_continues(
            self.source.as_str().get_char(self.current),
            c,
            escape,
        )
            invariant
                self.wf(),
                self.source == s0.source,
                self.length == s0.length,
                self.tokens == s0.tokens,
                self.errors == s0.errors,
                src == self.source@,
                0 <= i0 <= self.current as int,
                c == '"' || c == '\'',
                string_scan(src, i0, c, false).consumed == self.current - i0 + string_scan(
                    src,
                    self.current as int,
                    c,
                    escape,
                ).consumed,
                string_scan(src, i0, c, false).err == string_scan(
                    src,
                    self.current as int,
                    c,
                    escape,
                ).err,
                self.line as int == line_after(src, i0, (self.current - i0) as nat, l0),
                self.col as int == col_after(src, i0, (self.current - i0) as nat, c0),
            decreases self.length - self.current,
        {
            let ch = self.advance();
            escape = ch == '\\';
        }
        let mut terminated = false;
        if self.current < self.length {
            let ch = self.source.as_str().get_char(self.current);
            if ch == c {
                self.advance();
                terminated = true;
            }
        }
        if !terminated {
            self.errors.add_error("Unterminated string".to_owned(), ErrorKind::LEXER);
        }
        let content_end = if terminated {
            self.current - 1
        } else {
            self.current
        };
        let lexeme = self.lexeme_of(start, content_end);
        self.add_token(TokenKind::STRING, lexeme);
        proof {
            let r = string_scan(src, i0, c, false);
            if r.err {
                assert(self.errors@ =~= s0.errors@ + seq![lex_err(msg_unterminated_string())]);
            } else {
                assert(self.errors@ =~= s0.errors@ + Seq::<ErrorModel>::empty());
            }
        }
    }

    /// Emit a token for the single character the cursor just passed.
    fn add_single_char_token(&mut self, kind: TokenKind)
        requires
            old(self).wf(),
            old(self).current >= 1,
        ensures
            final(self).wf(),
            final(self).source == old(self).source,
            final(self).length == old(self).length,
            final(self).current == old(self).current,
            final(self).errors == old(self).errors,
            final(self).line == old(self).line,
            final(self).col == old(self).col,
            final(self).tokens.deep_view() == old(self).tokens.deep_view().push(
                TokenModel {
                    kind,
                    lexeme: old(self).source@.subrange(
                        old(self).current - 1,
                        old(self).current as int,
                    ),
                    line: old(self).line as int,
                    column: old(self).col as int,
                },
            ),
    {
        let lexeme = self.lexeme_of(self.current - 1, self.current);
        self.add_token(kind, lexeme);
    }

    /// After consuming `c`, emit the two-character token `double_kind` if
    /// the next character is the designated pairing character `expected`
    /// (consuming it too), and the one-character token `single_kind`
    /// otherwise.
    fn double_char_or_default(
        &mut self,
        c: char,
        single_kind: TokenKind,
        expected: char,
        double_kind: TokenKind,
    )
        requires
            old(self).wf(),
            old(self).current >= 1,
            old(self).source@[old(self).current - 1] == c,
        ensures
            final(self).wf(),
            final(self).source == old(self).source,
            final(self).length == old(self).length,
            final(self).errors == old(self).errors,
            ({
                let src = old(self).source@;
                let i = old(self).current as int;
                if i < old(self).length && src[i] == expected {
                    &&& final(self).current == old(self).current + 1
                    &&& final(self).line as int == adv_line(old(self).line as int, expected)
                    &&& final(self).col as int == adv_col(old(self).col as int, expected)
                    &&& final(self).tokens.deep_view() == old(self).tokens.deep_view().push(
                        TokenModel {
                            kind: double_kind,
                            lexeme: src.subrange(i - 1, i + 1),
                            line: final(self).line as int,
                            column: final(self).col as int,
                        },
                    )
                } else {
                    &&& final(self).current == old(self).current
                    &&& final(self).line == old(self).line
                    &&& final(self).col == old(self).col
                    &&& final(self).tokens.deep_view() == old(self).tokens.deep_view().push(
                        TokenModel {
                            kind: single_kind,
                            lexeme: src.subrange(i - 1, i),
                            line: final(self).line as int,
                            column: final(self).col as int,
                        },
                    )
                }
            }),
    {
        let start = self.current - 1;
        if self.peek_and_move(expected) {
            let lexeme = self.lexeme_of(start, self.current);
            self.add_token(double_kind, lexeme);
        } else {
            let lexeme = self.lexeme_of(start, start + 1);
            self.add_token(single_kind, lexeme);
        }
    }

    /// After consuming `c`, emit the two-character token `double_kind` if
    /// the next character matches `expected`; otherwise the pairing is
    /// mandatory, so record a diagnostic and emit nothing.
    fn double_char_or_error(&mut self, c: char, expected: char, double_kind: TokenKind)
        requires
            old(self).wf(),
            old(self).current >= 1,
            old(self).source@[old(self).current - 1] == c,
        ensures
            final(self).wf(),
            final(self).source == old(self).source,
            final(self).length == old(self).length,
            ({
                let src = old(self).source@;
                let i = old(self).current as int;
                if i < old(self).length && src[i] == expected {
                    &&& final(self).current == old(self).current + 1
                    &&& final(self).line as int == adv_line(old(self).line as int, expected)
                    &&& final(self).col as int == adv_col(old(self).col as int, expected)
                    &&& final(self).tokens.deep_view() == old(self).tokens.deep_view().push(
                        TokenModel {
                            kind: double_kind,
                            lexeme: src.subrange(i - 1, i + 1),
                            line: final(self).line as int,
                            column: final(self).col as int,
                        },
                    )
                    &&& final(self).errors == old(self).errors
                } else {
                    &&& final(self).current == old(self).current
                    &&& final(self).line == old(self).line
                    &&& final(self).col == old(self).col
                    &&& final(self).tokens == old(self).tokens
                    &&& final(self).errors@ == old(self).errors@.push(lex_err(msg_lexer_error()))
                }
            }),
    {
        let start = self.current - 1;
        if self.peek_and_move(expected) {
            let lexeme = self.lexeme_of(start, self.current);
            self.add_token(double_kind, lexeme);
        } else {
            self.errors.add_error("Lexer error".to_owned(), ErrorKind::LEXER);
        }
    }

    /// One iteration of the scan loop: consume at least one character and
    /// produce whatever `spec_step` says that position yields.
    fn scan_token(&mut self)
        requires
            old(self).wf(),
            old(self).current < old(self).length,
        ensures
            final(self).wf(),
            final(self).source == old(self).source,
            final(self).length == old(self).length,
            ({
                let st = spec_step(
                    old(self).source@,
                    old(self).current as int,
                    old(self).line as int,
                    old(self).col as int,
                );
                &&& final(self).current == old(self).current + st.consumed
                &&& final(self).line as int == st.line
                &&& final(self).col as int == st.col
                &&& final(self).tokens.deep_view() == old(self).tokens.deep_view() + st.tokens
                &&& final(self).errors@ == old(self).errors@ + st.errors
            }),
    {
        let ghost src = self.source@;
        let ghost i = self.current as int;
        let ghost l0 = self.line as int;
        let ghost c0 = self.col as int;
        let ghost t0 = self.tokens.deep_view();
        let ghost e0 = self.errors@;
        let c = self.advance();
        match c {
            '#' => {
                self.skip_comment();
                proof {
                    lemma_pos_after_split(src, i, 1, comment_len(src, i + 1), l0, c0);
                    lemma_pos_after_small(src, i, l0, c0);
                    assert(self.tokens.deep_view() =~~= t0 + spec_step(src, i, l0, c0).tokens);
                    assert(self.errors@ =~~= e0 + spec_step(src, i, l0, c0).errors);
                }
            },
            '(' => {
                self.add_single_char_token(TokenKind::LPAREN);
                proof {
                    lemma_pos_after_small(src, i, l0, c0);
                    assert(self.tokens.deep_view() =~~= t0 + spec_step(src, i, l0, c0).tokens);
                    assert(self.errors@ =~~= e0 + spec_step(src, i, l0, c0).errors);
                }
            },
            ')' => {
                self.add_single_char_token(TokenKind::RPAREN);
                proof {
                    lemma_pos_after_small(src, i, l0, c0);
                    assert(self.tokens.deep_view() =~~= t0 + spec_step(src, i, l0, c0).tokens);
                    assert(self.errors@ =~~= e0 + spec_step(src, i, l0, c0).errors);
                }
            },
            '[' => {
                self.add_single_char_token(TokenKind::LBRACKET);
                proof {
                    lemma_pos_after_small(src, i, l0, c0);
                    assert(self.tokens.deep_view() =~~= t0 + spec_step(src, i, l0, c0).tokens);
                    assert(self.errors@ =~~= e0 + spec_step(src, i, l0, c0).errors);
                }
            },
            ']' => {
                self.add_single_char_token(TokenKind::RBRACKET);
                proof {
                    lemma_pos_after_small(src, i, l0, c0);
                    assert(self.tokens.deep_view() =~~= t0 + spec_step(src, i, l0, c0).tokens);
                    assert(self.errors@ =~~= e0 + spec_step(src, i, l0, c0).errors);
                }
            },
            '{' => {
                self.add_single_char_token(TokenKind::LBRACE);
                proof {
                    lemma_pos_after_small(src, i, l0, c0);
                    assert(self.tokens.deep_view() =~~= t0 + spec_step(src, i, l0, c0).tokens);
                    assert(self.errors@ =~~= e0 + spec_step(src, i, l0, c0).errors);
                }
            },
            '}' => {
                self.add_single_char_token(TokenKind::RBRACE);
                proof {
                    lemma_pos_after_small(src, i, l0, c0);
                    assert(self.tokens.deep_view() =~~= t0 + spec_step(src, i, l0, c0).tokens);
                    assert(self.errors@ =~~= e0 + spec_step(src, i, l0, c0).errors);
                }
            },
            ',' => {
                self.add_single_char_token(TokenKind::COMMA);
                proof {
                    lemma_pos_after_small(src, i, l0, c0);
                    assert(self.tokens.deep_view() =~~= t0 + spec_step(src, i, l0, c0).tokens);
                    assert(self.errors@ =~~= e0 + spec_step(src, i, l0, c0).errors);
                }
            },
            '.' => {
                self.add_single_char_token(TokenKind::DOT);
                proof {
                    lemma_pos_after_small(src, i, l0, c0);
                    assert(self.tokens.deep_view() =~~= t0 + spec_step(src, i, l0, c0).tokens);
                    assert(self.errors@ =~~= e0 + spec_step(src, i, l0, c0).errors);
                }
            },
            '-' => {
                self.add_single_char_token(TokenKind::MINUS);
                proof {
                    lemma_pos_after_small(src, i, l0, c0);
                    assert(self.tokens.deep_view() =~~= t0 + spec_step(src, i, l0, c0).tokens);
                    assert(self.errors@ =~~= e0 + spec_step(src, i, l0, c0).errors);
                }
            },
            '+' => {
                self.add_single_char_token(TokenKind::PLUS);
                proof {
                    lemma_pos_after_small(src, i, l0, c0);
                    assert(self.tokens.deep_view() =~~= t0 + spec_step(src, i, l0, c0).tokens);
                    assert(self.errors@ =~~= e0 + spec_step(src, i, l0, c0).errors);
                }
            },
            ';' => {
                self.add_single_char_token(TokenKind::SEMICOLON);
                proof {
                    lemma_pos_after_small(src, i, l0, c0);
                    assert(self.tokens.deep_view() =~~= t0 + spec_step(src, i, l0, c0).tokens);
                    assert(self.errors@ =~~= e0 + spec_step(src, i, l0, c0).errors);
                }
            },
            '%' => {
                self.add_single_char_token(TokenKind::MODULO);
                proof {
                    lemma_pos_after_small(src, i, l0, c0);
                    assert(self.tokens.deep_view() =~~= t0 + spec_step(src, i, l0, c0).tokens);
                    assert(self.errors@ =~~= e0 + spec_step(src, i, l0, c0).errors);
                }
            },
            '*' => {
                self.double_char_or_default(c, TokenKind::MULTIPLY, '*', TokenKind::RAISETO);
                proof {
                    lemma_pos_after_small(src, i, l0, c0);
                    assert(self.tokens.deep_view() =~~= t0 + spec_step(src, i, l0, c0).tokens);
                    assert(self.errors@ =~~= e0 + spec_step(src, i, l0, c0).errors);
                }
            },
            '/' => {
                self.double_char_or_default(c, TokenKind::DIVIDE, '/', TokenKind::INTEGERDIVIDE);
                proof {
                    lemma_pos_after_small(src, i, l0, c0);
                    assert(self.tokens.deep_view() =~~= t0 + spec_step(src, i, l0, c0).tokens);
                    assert(self.errors@ =~~= e0 + spec_step(src, i, l0, c0).errors);
                }
            },
            '!' => {
                self.double_char_or_default(c, TokenKind::NOT, '=', TokenKind::NOTEQUAL);
                proof {
                    lemma_pos_after_small(src, i, l0, c0);
                    assert(self.tokens.deep_view() =~~= t0 + spec_step(src, i, l0, c0).tokens);
                    assert(self.errors@ =~~= e0 + spec_step(src, i, l0, c0).errors);
                }
            },
            '<' => {
                self.double_char_or_default(c, TokenKind::LESS, '=', TokenKind::LESSEQUAL);
                proof {
                    lemma_pos_after_small(src, i, l0, c0);
                    assert(self.tokens.deep_view() =~~= t0 + spec_step(src, i, l0, c0).tokens);
                    assert(self.errors@ =~~= e0 + spec_step(src, i, l0, c0).errors);
                }
            },
            '>' => {
                self.double_char_or_default(c, TokenKind::GREATER, '=', TokenKind::GREATEREQUAL);
                proof {
                    lemma_pos_after_small(src, i, l0, c0);
                    assert(self.tokens.deep_view() =~~= t0 + spec_step(src, i, l0, c0).tokens);
                    assert(self.errors@ =~~= e0 + spec_step(src, i, l0, c0).errors);
                }
            },
            '=' => {
                self.double_char_or_default(c, TokenKind::ASSIGN, '=', TokenKind::EQUAL);
                proof {
                    lemma_pos_after_small(src, i, l0, c0);
                    assert(self.tokens.deep_view() =~~= t0 + spec_step(src, i, l0, c0).tokens);
                    assert(self.errors@ =~~= e0 + spec_step(src, i, l0, c0).errors);
                }
            },
            '&' => {
                self.double_char_or_error(c, '&', TokenKind::AND);
                proof {
                    lemma_pos_after_small(src, i, l0, c0);
                    assert(self.tokens.deep_view() =~~= t0 + spec_step(src, i, l0, c0).tokens);
                    assert(self.errors@ =~~= e0 + spec_step(src, i, l0, c0).errors);
                }
            },
            '|' => {
                self.double_char_or_error(c, '|', TokenKind::OR);
                proof {
                    lemma_pos_after_small(src, i, l0, c0);
                    assert(self.tokens.deep_view() =~~= t0 + spec_step(src, i, l0, c0).tokens);
                    assert(self.errors@ =~~= e0 + spec_step(src, i, l0, c0).errors);
                }
            },
            '"' => {
                self.scan_string(c);
                proof {
                    lemma_pos_after_split(src, i, 1, string_scan(src, i + 1, c, false).consumed, l0, c0);
                    lemma_pos_after_small(src, i, l0, c0);
                    assert(self.tokens.deep_view() =~~= t0 + spec_step(src, i, l0, c0).tokens);
                    assert(self.errors@ =~~= e0 + spec_step(src, i, l0, c0).errors);
                }
            },
            '\'' => {
                self.scan_string(c);
                proof {
                    lemma_pos_after_split(src, i, 1, string_scan(src, i + 1, c, false).consumed, l0, c0);
                    lemma_pos_after_small(src, i, l0, c0);
                    assert(self.tokens.deep_view() =~~= t0 + spec_step(src, i, l0, c0).tokens);
                    assert(self.errors@ =~~= e0 + spec_step(src, i, l0, c0).errors);
                }
            },
            ' ' => {
                proof {
                    lemma_pos_after_small(src, i, l0, c0);
                    assert(self.tokens.deep_view() =~~= t0 + spec_step(src, i, l0, c0).tokens);
                    assert(self.errors@ =~~= e0 + spec_step(src, i, l0, c0).errors);
                }
            },
            '\t' => {
                proof {
                    lemma_pos_after_small(src, i, l0, c0);
                    assert(self.tokens.deep_view() =~~= t0 + spec_step(src, i, l0, c0).tokens);
                    assert(self.errors@ =~~= e0 + spec_step(src, i, l0, c0).errors);
                }
            },
            '\n' => {
                self.add_single_char_token(TokenKind::NEWLINE);
                proof {
                    lemma_pos_after_small(src, i, l0, c0);
                    assert(self.tokens.deep_view() =~~= t0 + spec_step(src, i, l0, c0).tokens);
                    assert(self.errors@ =~~= e0 + spec_step(src, i, l0, c0).errors);
                }
            },
            _ => {
                if is_digit_char(c) {
                    self.scan_number(c);
                    proof {
                        lemma_pos_after_split(
                            src,
                            i,
                            1,
                            number_scan(src, i + 1, false).consumed,
                            l0,
                            c0,
                        );
                        lemma_pos_after_small(src, i, l0, c0);
                        assert(self.tokens.deep_view() =~~= t0 + spec_step(src, i, l0, c0).tokens);
                        assert(self.errors@ =~~= e0 + spec_step(src, i, l0, c0).errors);
                    }
                } else if c.is_alphabetic() {
                    self.scan_identifier(c);
                    proof {
                        lemma_pos_after_split(src, i, 1, ident_len(src, i + 1), l0, c0);
                        lemma_pos_after_small(src, i, l0, c0);
                        assert(self.tokens.deep_view() =~~= t0 + spec_step(src, i, l0, c0).tokens);
                        assert(self.errors@ =~~= e0 + spec_step(src, i, l0, c0).errors);
                    }
                } else {
                    self.errors.add_error("Unexpected token".to_owned(), ErrorKind::LEXER);
                    proof {
                        lemma_pos_after_small(src, i, l0, c0);
                        assert(self.tokens.deep_view() =~~= t0 + spec_step(src, i, l0, c0).tokens);
                        assert(self.errors@ =~~= e0 + spec_step(src, i, l0, c0).errors);
                    }
                }
            },
        }
    }

    /// Drain the entire remaining input, producing exactly the tokens and
    /// diagnostics of the scan model. The cursor always ends at
    /// end-of-input: every iteration consumes at least one character, so the
    /// scan terminates on every source text.
    pub fn scan(&mut self)
        requires
            old(self).wf(),
        ensures
            final(self).wf(),
            final(self).source == old(self).source,
            final(self).length == old(self).length,
            final(self).current == final(self).length,
            ({
                let out = spec_scan(
                    old(self).source@,
                    old(self).current as int,
                    old(self).line as int,
                    old(self).col as int,
                );
                &&& final(self).tokens.deep_view() == old(self).tokens.deep_view() + out.tokens
                &&& final(self).errors@ == old(self).errors@ + out.errors
            }),
    {
        let ghost s0 = *self;
        let ghost src = self.source@;
        while self.current < self.length
            invariant
                self.wf(),
                self.source == s0.source,
                self.length == s0.length,
                src == self.source@,
                s0.tokens.deep_view() + spec_scan(
                    src,
                    s0.current as int,
                    s0.line as int,
                    s0.col as int,
                ).tokens == self.tokens.deep_view() + spec_scan(
                    src,
                    self.current as int,
                    self.line as int,
                    self.col as int,
                ).tokens,
                s0.errors@ + spec_scan(
                    src,
                    s0.current as int,
                    s0.line as int,
                    s0.col as int,
                ).errors == self.errors@ + spec_scan(
                    src,
                    self.current as int,
                    self.line as int,
                    self.col as int,
                ).errors,
            decreases self.length - self.current,
        {
            let ghost prev = *self;
            self.scan_token();
            proof {
                let st = spec_step(src, prev.current as int, prev.line as int, prev.col as int);
                lemma_step_bounds(src, prev.current as int, prev.line as int, prev.col as int);
                let rest = spec_scan(src, self.current as int, self.line as int, self.col as int);
                assert(spec_scan(
                    src,
                    prev.current as int,
                    prev.line as int,
                    prev.col as int,
                ).tokens =~= st.tokens + rest.tokens);
                assert(spec_scan(
                    src,
                    prev.current as int,
                    prev.line as int,
                    prev.col as int,
                ).errors =~= st.errors + rest.errors);
                assert(prev.tokens.deep_view() + (st.tokens + rest.tokens) =~= (
                prev.tokens.deep_view() + st.tokens) + rest.tokens);
                assert(prev.errors@ + (st.errors + rest.errors) =~= (prev.errors@ + st.errors)
                    + rest.errors);
            }
        }
        proof {
            let done = spec_scan(src, self.current as int, self.line as int, self.col as int);
            assert(done.tokens =~= Seq::<TokenModel>::empty());
            assert(done.errors =~= Seq::<ErrorModel>::empty());
            assert(self.tokens.deep_view() + done.tokens =~= self.tokens.deep_view());
            assert(self.errors@ + done.errors =~= self.errors@);
        }
    }
}

} // verus!
