use vstd::prelude::*;

use crate::error::{error_text, Error, ErrorV};
use crate::error_stage::ErrorStage;
use crate::token::Token;
use crate::token_type::TokenType;
use vstd::string::StringExecFns;

verus! {

/// The diagnostic recorded by `ErrorReporter::error_token` for a token.
pub open spec fn token_error(token: crate::token::TokenV, message: Seq<char>) -> ErrorV {
    ErrorV {
        line: token.line,
        location: if token.kind == TokenType::EOF {
            " at end"@
        } else {
            " at '"@ + token.lexeme + "'"@
        },
        message,
        stage: ErrorStage::Compile,
    }
}

/// Whether some diagnostic of the given stage has been recorded.
pub open spec fn has_stage(errors: Seq<ErrorV>, stage: ErrorStage) -> bool {
    exists|i: int| 0 <= i < errors.len() && errors[i].stage == stage
}

/// The formatted dump of a diagnostic sequence from index `i` on:
/// one line per diagnostic, collapsing consecutive diagnostics that share a
/// source line to the first of them.
pub open spec fn dump_text(errors: Seq<ErrorV>, i: int) -> Seq<Seq<char>>
    decreases errors.len() - i,
{
    if i < 0 || i >= errors.len() {
        Seq::empty()
    } else if i == 0 || errors[i].line != errors[i - 1].line {
        seq![error_text(errors[i])] + dump_text(errors, i + 1)
    } else {
        dump_text(errors, i + 1)
    }
}

/// Accumulates structured diagnostics from every stage of the pipeline.
/// It never aborts; callers query it after a run to decide what to do.
pub struct ErrorReporter {
    errors: Vec<Error>,
}

impl View for ErrorReporter {
    type V = Seq<ErrorV>;

    closed spec fn view(&self) -> Seq<ErrorV> {
        self.errors.deep_view()
    }
}

impl ErrorReporter {
    pub fn new() -> (r: ErrorReporter)
        ensures
            r@ == Seq::<ErrorV>::empty(),
    {
        let r = ErrorReporter { errors: Vec::new() };
        assert(r@ =~= Seq::<ErrorV>::empty());
        r
    }

    /// Records one diagnostic and returns a copy of it.
    fn report(&mut self, line: i64, location: &str, message: &str, stage: ErrorStage) -> (r: Error)
        ensures
            r@ == (ErrorV {
                line: line as int,
                location: location@,
                message: message@,
                stage,
            }),
            final(self)@ == old(self)@.push(r@),
    {
        let error = Error::new(line, location, message, stage);
        let copy = Error::new(line, location, message, stage);
        assert(copy@ == error@);
        self.errors.push(error);
        assert(final(self)@ =~= old(self)@.push(copy@));
        copy
    }

    /// Records a runtime diagnostic with an empty location.
    pub fn runtime_error(&mut self, line: i64, message: &str) -> (r: Error)
        ensures
            r@ == (ErrorV {
                line: line as int,
                location: Seq::empty(),
                message: message@,
                stage: ErrorStage::Runtime,
            }),
            final(self)@ == old(self)@.push(r@),
    {
        let r = self.report(line, "", message, ErrorStage::Runtime);
        assert(""@ =~= Seq::<char>::empty()) by {
            reveal_strlit("");
        }
        r
    }

    /// Records a compile diagnostic located at a token: ` at end` for the
    /// end-of-input token, ` at '{lexeme}'` otherwise.
    pub fn error_token(&mut self, token: Token, message: &str) -> (r: Error)
        ensures
            r@ == token_error(token@, message@),
            final(self)@ == old(self)@.push(r@),
    {
        if token.token_type == TokenType::EOF {
            self.report(token.line, " at end", message, ErrorStage::Compile)
        } else {
            let mut loc = String::from_str(" at '");
            loc.append(token.lexeme.as_str());
            loc.append("'");
            self.report(token.line, loc.as_str(), message, ErrorStage::Compile)
        }
    }

    /// Records a compile diagnostic with an empty location.
    pub fn error_line(&mut self, line: i64, message: &str) -> (r: Error)
        ensures
            r@ == (ErrorV {
                line: line as int,
                location: Seq::empty(),
                message: message@,
                stage: ErrorStage::Compile,
            }),
            final(self)@ == old(self)@.push(r@),
    {
        let r = self.report(line, "", message, ErrorStage::Compile);
        assert(""@ =~= Seq::<char>::empty()) by {
            reveal_strlit("");
        }
        r
    }

    /// Whether any compile-stage diagnostic has been recorded.
    pub fn had_error(&self) -> (r: bool)
        ensures
            r == has_stage(self@, ErrorStage::Compile),
    {
        self.had_stage(ErrorStage::Compile)
    }

    /// Whether any runtime-stage diagnostic has been recorded.
    pub fn had_runtime_error(&self) -> (r: bool)
        ensures
            r == has_stage(self@, ErrorStage::Runtime),
    {
        self.had_stage(ErrorStage::Runtime)
    }

    fn had_stage(&self, stage: ErrorStage) -> (r: bool)
        ensures
            r == has_stage(self@, stage),
    {
        let n = self.errors.len();
        let mut i: usize = 0;
        while i < n
            invariant
                n == self.errors.len(),
                i <= n,
                self@.len() == n,
                forall|j: int| 0 <= j < i ==> self@[j].stage != stage,
            decreases n - i,
        {
            if self.errors[i].stage == stage {
                assert(self@[i as int].stage == stage);
                return true;
            }
            i += 1;
        }
        false
    }

    /// The formatted dump of every recorded diagnostic, one line each,
    /// collapsing consecutive diagnostics on the same source line.
    pub fn dump_lines(&self) -> (r: Vec<String>)
        ensures
            r.deep_view() == dump_text(self@, 0),
    {
        let n = self.errors.len();
        let mut out: Vec<String> = Vec::new();
        let mut i: usize = 0;
        while i < n
            invariant
                n == self.errors.len(),
                i <= n,
                self@.len() == n,
                out.deep_view() + dump_text(self@, i as int) == dump_text(self@, 0),
            decreases n - i,
        {
            let keep = if i == 0 {
                true
            } else {
                self.errors[i].line != self.errors[i - 1].line
            };
            if keep {
                let line = self.errors[i].to_text();
                out.push(line);
                assert(out.deep_view() + dump_text(self@, i + 1) =~= dump_text(self@, 0));
            } else {
                assert(out.deep_view() + dump_text(self@, i + 1) =~= dump_text(self@, 0));
            }
            i += 1;
        }
        assert(out.deep_view() =~= dump_text(self@, 0));
        out
    }
}

} // verus!
