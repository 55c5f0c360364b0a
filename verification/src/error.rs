use vstd::prelude::*;

use crate::error_stage::{stage_text, ErrorStage};
use crate::text::{int_text, push_int};
use vstd::string::StringExecFns;

verus! {

/// The mathematical content of a diagnostic.
#[verifier::ext_equal]
pub ghost struct ErrorV {
    pub line: int,
    pub location: Seq<char>,
    pub message: Seq<char>,
    pub stage: ErrorStage,
}

/// The formatted text of a diagnostic:
/// `[line {line}] {stage} Error{location}: {message}`.
pub open spec fn error_text(e: ErrorV) -> Seq<char> {
    "[line "@ + int_text(e.line) + "] "@ + stage_text(e.stage) + " Error"@ + e.location + ": "@
        + e.message
}

/// One structured diagnostic, immutable once created.
#[derive(Clone, PartialEq, Debug)]
pub struct Error {
    pub line: i64,
    pub location: String,
    pub message: String,
    pub stage: ErrorStage,
}

impl View for Error {
    type V = ErrorV;

    open spec fn view(&self) -> ErrorV {
        ErrorV {
            line: self.line as int,
            location: self.location@,
            message: self.message@,
            stage: self.stage,
        }
    }
}

impl DeepView for Error {
    type V = ErrorV;

    open spec fn deep_view(&self) -> ErrorV {
        self.view()
    }
}

impl Error {
    pub fn new(line: i64, location: &str, message: &str, stage: ErrorStage) -> (r: Error)
        ensures
            r@ == (ErrorV {
                line: line as int,
                location: location@,
                message: message@,
                stage,
            }),
    {
        Error { line, location: location.to_owned(), message: message.to_owned(), stage }
    }

    /// The diagnostic formatted for display.
    pub fn to_text(&self) -> (r: String)
        ensures
            r@ == error_text(self@),
    {
        let mut s = String::from_str("[line ");
        push_int(&mut s, self.line);
        s.append("] ");
        let stage = self.stage.text();
        s.append(stage.as_str());
        s.append(" Error");
        s.append(self.location.as_str());
        s.append(": ");
        s.append(self.message.as_str());
        assert(s@ =~= error_text(self@));
        s
    }
}

} // verus!
