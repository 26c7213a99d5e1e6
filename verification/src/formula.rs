//! A parsed formula: the expression tree together with its source text.
use vstd::prelude::*;

use crate::language::{Expr, ExprV, expr_view};
use crate::parser::sp_parse;

verus! {

/// The error of formula parsing.
#[derive(Debug, Clone, Copy, PartialEq, Eq, Structural)]
pub enum FormulaError {
    InvalidFormula,
}

/// A parsed formula.
///
/// The source text is retained beside the tree, so a client can display
/// and round-trip a formula without serializing the tree.
#[derive(Debug)]
pub struct Formula {
    pub script: String,
    pub expr: Expr,
}

impl Formula {
    /// Parses a formula body, returning `InvalidFormula` exactly when the
    /// grammar rejects it. The source text is retained unchanged beside
    /// the tree, so serializing a parsed formula is the identity.
    pub fn parse(script: &str) -> (r: Result<Formula, FormulaError>)
        ensures
            match r {
                Ok(f) => f.script@ == script@ && sp_parse(script@) == Some(expr_view(f.expr)),
                Err(e) => e == FormulaError::InvalidFormula && sp_parse(script@) is None,
            },
    {
        match crate::parser::parse_script(script) {
            Some(expr) => Ok(Formula { script: script.to_owned(), expr }),
            None => Err(FormulaError::InvalidFormula),
        }
    }
}

} // verus!
