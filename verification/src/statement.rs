use vstd::prelude::*;

use crate::expression::{Expr, ExprV};

verus! {

/// The mathematical content of a statement.
#[verifier::ext_equal]
pub ghost enum StmtV {
    Expression(ExprV),
    Print(ExprV),
}

/// One statement: a bare expression, or a `print`-prefixed expression.
/// A program is an ordered sequence of statements.
pub enum Stmt {
    Expression(Expr),
    Print(Expr),
}

impl View for Stmt {
    type V = StmtV;

    open spec fn view(&self) -> StmtV {
        match self {
            Stmt::Expression(e) => StmtV::Expression(e@),
            Stmt::Print(e) => StmtV::Print(e@),
        }
    }
}

impl DeepView for Stmt {
    type V = StmtV;

    open spec fn deep_view(&self) -> StmtV {
        self.view()
    }
}

} // verus!
