//! The diagnostics collector: an append-only, order-preserving list of the
//! errors found while working through a source text. Lexing is
//! error-tolerant, so the scanner records a diagnostic here and keeps going
//! rather than aborting.

use vstd::prelude::*;

verus! {

/// The class of a diagnostic. The scanner only ever produces `LEXER`
/// diagnostics; the other kinds exist for the downstream consumers of the
/// token stream.
#[derive(Debug, Clone, Copy, PartialEq, Eq, Structural)]
pub enum ErrorKind {
    LEXER,
    PARSER,
    RUNTIME,
}

/// Mathematical model of one diagnostic: its kind and its message text.
#[verifier::ext_equal]
pub struct ErrorModel {
    pub kind: ErrorKind,
    pub message: Seq<char>,
}

/// One recorded diagnostic.
#[derive(Debug, PartialEq, Eq)]
pub struct InterpreterError {
    pub kind: ErrorKind,
    pub message: String,
}

impl View for InterpreterError {
    type V = ErrorModel;

    open spec fn view(&self) -> ErrorModel {
        ErrorModel { kind: self.kind, message: self.message@ }
    }
}

impl DeepView for InterpreterError {
    type V = ErrorModel;

    open spec fn deep_view(&self) -> ErrorModel {
        self.view()
    }
}

impl InterpreterError {
    fn new(kind: ErrorKind, message: String) -> (r: InterpreterError)
        ensures
            r@ == (ErrorModel { kind, message: message@ }),
    {
        InterpreterError { kind, message }
    }
}

/// An ordered list of diagnostics. It never discards an entry and has no
/// capacity limit; equality of two collectors is order-sensitive and
/// message-exact.
#[derive(Debug, PartialEq, Eq)]
pub struct InterpreterErrors {
    pub errors: Vec<InterpreterError>,
}

impl View for InterpreterErrors {
    type V = Seq<ErrorModel>;

    open spec fn view(&self) -> Seq<ErrorModel> {
        self.errors.deep_view()
    }
}

impl InterpreterErrors {
    pub fn new() -> (r: InterpreterErrors)
        ensures
            r@ == Seq::<ErrorModel>::empty(),
    {
        let r = InterpreterErrors { errors: Vec::new() };
        proof {
            assert(r@ =~= Seq::<ErrorModel>::empty());
        }
        r
    }

    /// Append one diagnostic: no deduplication, no limit.
    pub fn add_error(&mut self, error: String, kind: ErrorKind)
        ensures
            final(self)@ == old(self)@.push(ErrorModel { kind, message: error@ }),
    {
        let ghost message: Seq<char> = error@;
        self.errors.push(InterpreterError::new(kind, error));
        proof {
            assert(self@ =~= old(self)@.push(ErrorModel { kind, message }));
        }
    }

    pub fn has_errors(&self) -> (r: bool)
        ensures
            r == (self@.len() > 0),
    {
        self.errors.len() > 0
    }

    /// True iff the recorded messages are exactly `expected`, in order.
    /// Only message text is compared; the kinds are not examined.
    pub fn expect_errors(&self, expected: Vec<&str>) -> (r: bool)
        ensures
            r == (self@.len() == expected@.len() && (forall|i: int|
                0 <= i < self@.len() ==> self@[i].message == expected@[i]@)),
    {
        if self.errors.len() != expected.len() {
            return false;
        }
        let mut i: usize = 0;
        while i < self.errors.len()
            invariant
                0 <= i <= self.errors.len(),
                self@.len() == expected@.len(),
                self.errors.len() == self@.len(),
                forall|k: int| 0 <= k < i ==> self@[k].message == expected@[k]@,
            decreases self.errors.len() - i,
        {
            let found: &String = &self.errors[i].message;
            let want: String = expected[i].to_owned();
            if !(*found == want) {
                return false;
            }
            i += 1;
        }
        true
    }
}

} // verus!
