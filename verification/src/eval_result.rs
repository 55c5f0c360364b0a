use vstd::prelude::*;

use crate::error::{error_text, Error, ErrorV};
use crate::number::{num_text, num_wf, Num};
use vstd::string::StringExecFns;

verus! {

/// The mathematical content of an evaluation result.
#[verifier::ext_equal]
pub ghost enum ValueV {
    Null,
    Number { n: int, d: int },
    Str(Seq<char>),
    Error(ErrorV),
}

/// The result of evaluating an expression: the absent value, an exact
/// number, a piece of text, or an embedded diagnostic.
#[derive(Clone, PartialEq, Debug)]
pub enum EvalResult {
    Null,
    Number(Num),
    Str(String),
    Error(Error),
}

impl View for EvalResult {
    type V = ValueV;

    open spec fn view(&self) -> ValueV {
        match self {
            EvalResult::Null => ValueV::Null,
            EvalResult::Number(x) => ValueV::Number { n: x.n as int, d: x.d as int },
            EvalResult::Str(s) => ValueV::Str(s@),
            EvalResult::Error(e) => ValueV::Error(e@),
        }
    }
}

impl DeepView for EvalResult {
    type V = ValueV;

    open spec fn deep_view(&self) -> ValueV {
        self.view()
    }
}

/// A well-formed value: an embedded number has a positive denominator.
pub open spec fn value_wf(v: ValueV) -> bool {
    match v {
        ValueV::Number { n, d } => d >= 1,
        _ => true,
    }
}

/// The textual form of a value, as the `print` statement shows it.
pub open spec fn value_text(v: ValueV) -> Seq<char> {
    match v {
        ValueV::Null => "null"@,
        ValueV::Number { n, d } => num_text(n, d),
        ValueV::Str(s) => s,
        ValueV::Error(e) => error_text(e),
    }
}

impl EvalResult {
    /// An exact copy of this value.
    pub fn dup(&self) -> (r: EvalResult)
        ensures
            r@ == self@,
    {
        match self {
            EvalResult::Null => EvalResult::Null,
            EvalResult::Number(x) => EvalResult::Number(*x),
            EvalResult::Str(s) => EvalResult::Str(s.clone()),
            EvalResult::Error(e) => EvalResult::Error(
                Error::new(e.line, e.location.as_str(), e.message.as_str(), e.stage),
            ),
        }
    }

    /// The textual form of this value, as the `print` statement shows it.
    pub fn to_text(&self) -> (r: String)
        requires
            value_wf(self@),
        ensures
            r@ == value_text(self@),
    {
        match self {
            EvalResult::Null => String::from_str("null"),
            EvalResult::Number(x) => x.to_text(),
            EvalResult::Str(s) => s.clone(),
            EvalResult::Error(e) => e.to_text(),
        }
    }
}

} // verus!
