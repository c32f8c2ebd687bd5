//! The acceptance of billing expressions.
use vstd::prelude::*;

use crate::billing::is_config_error;
use crate::error::{ProxyError, ProxyResult};
use crate::text::{concat, trim, trimmed};

verus! {

/// What came of evaluating an expression at some token counts.
#[derive(Debug, PartialEq, Eq)]
pub enum EvalOutcome {
    /// The value is a number.
    Number,
    /// The value is something else, shown by its debug format.
    NotNumber(String),
    /// The evaluation failed.
    Failed(String),
    /// The variables could not be set.
    NoContext(String),
}

/// The prompt and completion tokens at which an expression is tried before it is accepted.
pub const FIRST_SAMPLE: (u64, u64) = (100, 50);

pub const SECOND_SAMPLE: (u64, u64) = (0, 0);

pub const THIRD_SAMPLE: (u64, u64) = (10000, 5000);

/// The text of the error that an evaluation gives, if it gives one.
pub open spec fn outcome_error(outcome: EvalOutcome) -> Option<Seq<char>> {
    match outcome {
        EvalOutcome::Number => None,
        EvalOutcome::NotNumber(v) => Some("billing expr must return number, got "@ + v@),
        EvalOutcome::Failed(e) => Some("billing expr eval failed: "@ + e@),
        EvalOutcome::NoContext(e) => Some("billing expr ctx: "@ + e@),
    }
}

/// The result is that of an evaluation.
pub open spec fn result_of(r: ProxyResult<()>, error: Option<Seq<char>>) -> bool {
    match (r, error) {
        (Ok(_), None) => true,
        (Err(e), Some(text)) => is_config_error(e, text),
        _ => false,
    }
}

/// Accepts an evaluation that gave a number.
pub fn check_outcome(outcome: &EvalOutcome) -> (r: ProxyResult<()>)
    ensures
        result_of(r, outcome_error(*outcome)),
{
    match outcome {
        EvalOutcome::Number => Ok(()),
        EvalOutcome::NotNumber(v) => Err(
            ProxyError::Config(concat("billing expr must return number, got ", v.as_str())),
        ),
        EvalOutcome::Failed(e) => Err(
            ProxyError::Config(concat("billing expr eval failed: ", e.as_str())),
        ),
        EvalOutcome::NoContext(e) => Err(ProxyError::Config(concat("billing expr ctx: ", e.as_str()))),
    }
}

/// The error of the first evaluation that gives one; an expression of white space is refused
/// before any.
pub open spec fn validation_error(
    expr: Seq<char>,
    first: EvalOutcome,
    second: EvalOutcome,
    third: EvalOutcome,
) -> Option<Seq<char>> {
    if trim(expr).len() == 0 {
        Some("billing expr is empty"@)
    } else if outcome_error(first) is Some {
        outcome_error(first)
    } else if outcome_error(second) is Some {
        outcome_error(second)
    } else {
        outcome_error(third)
    }
}

/// Accepts an expression that is not empty and gave a number at all three samples.
pub fn validate(
    expr: &str,
    first: &EvalOutcome,
    second: &EvalOutcome,
    third: &EvalOutcome,
) -> (r: ProxyResult<()>)
    ensures
        result_of(r, validation_error(expr@, *first, *second, *third)),
{
    if trimmed(expr).as_str().is_empty() {
        return Err(ProxyError::Config("billing expr is empty".to_owned()));
    }
    let a = check_outcome(first);
    if a.is_err() {
        return a;
    }
    let b = check_outcome(second);
    if b.is_err() {
        return b;
    }
    check_outcome(third)
}

/// An expression is accepted exactly where it is more than white space and gave a number at every
/// sample; otherwise the first sample that gave none tells the error.
pub proof fn law_expressions_give_numbers(
    expr: Seq<char>,
    first: EvalOutcome,
    second: EvalOutcome,
    third: EvalOutcome,
)
    ensures
        validation_error(expr, first, second, third) is None <==> {
            &&& trim(expr).len() > 0
            &&& first is Number
            &&& second is Number
            &&& third is Number
        },
        trim(expr).len() > 0 && first !is Number ==> validation_error(expr, first, second, third)
            == outcome_error(first),
        trim(expr).len() > 0 && first is Number && second !is Number ==> validation_error(
            expr,
            first,
            second,
            third,
        ) == outcome_error(second),
{
}

} // verus!
