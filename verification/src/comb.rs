//! The comb pass: a purely structural second pass over the scanned token
//! sequence that removes every transient `NEWLINE` marker, either deleting
//! it or rewriting it in place into an inferred `SEMICOLON` statement
//! terminator, judged only from the newline's immediate neighbours.

use vstd::prelude::*;

use crate::scanner::Scanner;
use crate::token::Token;
use crate::token::TokenKind;
use crate::token::TokenModel;

verus! {

/// Whether a token kind continues the previous statement across a line
/// break (method or property chaining, a list, or a logical operator), so
/// that a newline directly before it is deleted.
pub open spec fn continues_statement(k: TokenKind) -> bool {
    k == TokenKind::DOT || k == TokenKind::COMMA || k == TokenKind::AND || k == TokenKind::OR
}

/// Whether a token kind already ends a statement or continues a list, so
/// that a newline directly after it is redundant and is deleted.
pub open spec fn terminates_statement(k: TokenKind) -> bool {
    k == TokenKind::COMMA || k == TokenKind::SEMICOLON
}

/// The comb rewrite of `toks`, where `prev` is the kind of the last token
/// already emitted (`None` while there is none). Going left to right, a
/// `NEWLINE` is deleted while no token stands before it, deleted when the
/// token before it is a comma or semicolon, deleted when the token after it
/// continues the statement, and otherwise rewritten in place into a
/// `SEMICOLON` (its lexeme and position are kept). Every other token is
/// kept as it is.
pub open spec fn comb_rest(prev: Option<TokenKind>, toks: Seq<TokenModel>) -> Seq<TokenModel>
    decreases toks.len(),
{
    if toks.len() == 0 {
        Seq::empty()
    } else {
        let t = toks[0];
        let rest = toks.drop_first();
        if t.kind != TokenKind::NEWLINE {
            seq![t] + comb_rest(Some(t.kind), rest)
        } else if prev is None {
            comb_rest(prev, rest)
        } else if prev == Some(TokenKind::COMMA) || prev == Some(TokenKind::SEMICOLON) {
            comb_rest(prev, rest)
        } else if rest.len() > 0 && continues_statement(rest[0].kind) {
            comb_rest(prev, rest)
        } else {
            seq![TokenModel { kind: TokenKind::SEMICOLON, ..t }] + comb_rest(
                Some(TokenKind::SEMICOLON),
                rest,
            )
        }
    }
}

/// The comb rewrite of a whole token sequence.
pub open spec fn spec_comb(toks: Seq<TokenModel>) -> Seq<TokenModel> {
    comb_rest(None, toks)
}

impl Scanner {
    /// Rewrite the scanned token sequence so that no `NEWLINE` remains,
    /// following `spec_comb`: a leading newline is deleted, a newline after
    /// a comma or semicolon is deleted, a newline before a dot, comma,
    /// `&&` or `||` is deleted, and every other newline becomes an inferred
    /// `SEMICOLON` terminator in place.
    pub fn comb(&mut self)
        ensures
            final(self).source == old(self).source,
            final(self).length == old(self).length,
            final(self).current == old(self).current,
            final(self).errors == old(self).errors,
            final(self).line == old(self).line,
            final(self).col == old(self).col,
            final(self).tokens.deep_view() == spec_comb(old(self).tokens.deep_view()),
    {
        let ghost orig = self.tokens.deep_view();
        let mut out: Vec<Token> = Vec::new();
        let mut prev: Option<TokenKind> = None;
        let mut j: usize = 0;
        proof {
            assert(out.deep_view() =~= Seq::<TokenModel>::empty());
            assert(orig.skip(0) =~= orig);
        }
        while j < self.tokens.len()
            invariant
                j <= self.tokens.len(),
                self.tokens.deep_view() == orig,
                spec_comb(orig) == out.deep_view() + comb_rest(prev, orig.skip(j as int)),
            decreases self.tokens.len() - j,
        {
            let ghost out0 = out.deep_view();
            let ghost rest = orig.skip(j as int);
            proof {
                assert(rest[0] == orig[j as int]);
                assert(rest.drop_first() =~= orig.skip(j as int + 1));
            }
            let t = &self.tokens[j];
            if t.kind != TokenKind::NEWLINE {
                let kept = Token::new(t.kind, t.lexeme.clone(), t.line, t.column);
                out.push(kept);
                prev = Some(t.kind);
                proof {
                    assert(out.deep_view() =~~= out0.push(rest[0]));
                    assert(out0 + (seq![rest[0]] + comb_rest(prev, rest.drop_first())) =~~= (out0
                        + seq![rest[0]]) + comb_rest(prev, rest.drop_first()));
                    assert(out0.push(rest[0]) =~~= out0 + seq![rest[0]]);
                }
            } else {
                let mut remove = false;
                match prev {
                    Option::None => {
                        remove = true;
                    },
                    Option::Some(k) => {
                        if k == TokenKind::COMMA || k == TokenKind::SEMICOLON {
                            remove = true;
                        }
                    },
                }
                if !remove && j + 1 < self.tokens.len() {
                    let next_kind = self.tokens[j + 1].kind;
                    if next_kind == TokenKind::DOT || next_kind == TokenKind::COMMA || next_kind
                        == TokenKind::AND || next_kind == TokenKind::OR {
                        remove = true;
                    }
                }
                if !remove {
                    let converted = Token::new(
                        TokenKind::SEMICOLON,
                        t.lexeme.clone(),
                        t.line,
                        t.column,
                    );
                    out.push(converted);
                    prev = Some(TokenKind::SEMICOLON);
                    proof {
                        let semi = TokenModel { kind: TokenKind::SEMICOLON, ..rest[0] };
                        assert(out.deep_view() =~~= out0.push(semi));
                        assert(out0 + (seq![semi] + comb_rest(prev, rest.drop_first())) =~~= (out0
                            + seq![semi]) + comb_rest(prev, rest.drop_first()));
                        assert(out0.push(semi) =~~= out0 + seq![semi]);
                    }
                }
            }
            j += 1;
        }
        proof {
            assert(orig.skip(j as int) =~= Seq::<TokenModel>::empty());
            assert(out.deep_view() + comb_rest(prev, Seq::<TokenModel>::empty())
                =~~= out.deep_view());
        }
        self.tokens = out;
    }
}

/// The comb rewrite never leaves a `NEWLINE` behind, whatever stood before
/// the sequence.
pub proof fn lemma_comb_rest_no_newline(prev: Option<TokenKind>, toks: Seq<TokenModel>)
    ensures
        forall|i: int|
            0 <= i < comb_rest(prev, toks).len() ==> comb_rest(prev, toks)[i].kind
                != TokenKind::NEWLINE,
    decreases toks.len(),
{
    if toks.len() > 0 {
        let t = toks[0];
        let rest = toks.drop_first();
        if t.kind != TokenKind::NEWLINE {
            lemma_comb_rest_no_newline(Some(t.kind), rest);
        } else {
            lemma_comb_rest_no_newline(prev, rest);
            lemma_comb_rest_no_newline(Some(TokenKind::SEMICOLON), rest);
        }
    }
}

/// On a sequence with no `NEWLINE` in it the comb rewrite changes nothing,
/// whatever stood before the sequence.
pub proof fn lemma_comb_rest_identity(prev: Option<TokenKind>, toks: Seq<TokenModel>)
    requires
        forall|i: int| 0 <= i < toks.len() ==> toks[i].kind != TokenKind::NEWLINE,
    ensures
        comb_rest(prev, toks) == toks,
    decreases toks.len(),
{
    if toks.len() == 0 {
        assert(comb_rest(prev, toks) =~= toks);
    } else {
        let t = toks[0];
        let rest = toks.drop_first();
        assert(forall|i: int| 0 <= i < rest.len() ==> rest[i] == toks[i + 1]);
        lemma_comb_rest_identity(Some(t.kind), rest);
        assert(seq![t] + rest =~= toks);
    }
}

/// Combing is idempotent: a second pass over an already combed sequence
/// changes nothing.
pub proof fn lemma_comb_idempotent(toks: Seq<TokenModel>)
    ensures
        spec_comb(spec_comb(toks)) == spec_comb(toks),
{
    lemma_comb_rest_no_newline(None, toks);
    lemma_comb_rest_identity(None, spec_comb(toks));
}

/// A newline at the very front of the sequence is deleted outright: a
/// program never begins with a statement terminator.
pub proof fn lemma_comb_deletes_leading(t: TokenModel, rest: Seq<TokenModel>)
    requires
        t.kind == TokenKind::NEWLINE,
    ensures
        spec_comb(seq![t] + rest) == spec_comb(rest),
{
    assert((seq![t] + rest).drop_first() =~= rest);
}

/// A newline standing right after a comma or semicolon is deleted, not
/// converted: the statement is already terminated or the list continues.
pub proof fn lemma_comb_deletes_after_terminator(
    prev: TokenKind,
    t: TokenModel,
    rest: Seq<TokenModel>,
)
    requires
        t.kind == TokenKind::NEWLINE,
        terminates_statement(prev),
    ensures
        comb_rest(Some(prev), seq![t] + rest) == comb_rest(Some(prev), rest),
{
    assert((seq![t] + rest).drop_first() =~= rest);
}

/// A newline standing right before a dot, comma, `&&` or `||` is deleted,
/// not converted, whatever stands before it: the statement continues across
/// the line break.
pub proof fn lemma_comb_deletes_before_continuation(
    prev: Option<TokenKind>,
    t: TokenModel,
    rest: Seq<TokenModel>,
)
    requires
        t.kind == TokenKind::NEWLINE,
        rest.len() > 0,
        continues_statement(rest[0].kind),
    ensures
        comb_rest(prev, seq![t] + rest) == comb_rest(prev, rest),
{
    assert((seq![t] + rest).drop_first() =~= rest);
}

} // verus!
