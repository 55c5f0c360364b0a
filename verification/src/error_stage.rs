use vstd::prelude::*;

verus! {

/// Classifies a diagnostic as arising during compile-time analysis
/// (scanning or parsing) or during evaluation.
#[derive(Clone, Copy, PartialEq, Eq, Structural, Debug)]
pub enum ErrorStage {
    Compile,
    Runtime,
}

/// The name under which a stage appears in a formatted diagnostic.
pub open spec fn stage_text(stage: ErrorStage) -> Seq<char> {
    match stage {
        ErrorStage::Compile => "Compile"@,
        ErrorStage::Runtime => "Runtime"@,
    }
}

impl ErrorStage {
    /// The stage's name as it appears in a formatted diagnostic.
    pub fn text(&self) -> (r: String)
        ensures
            r@ == stage_text(*self),
    {
        match self {
            ErrorStage::Compile => String::from_str("Compile"),
            ErrorStage::Runtime => String::from_str("Runtime"),
        }
    }
}

} // verus!
