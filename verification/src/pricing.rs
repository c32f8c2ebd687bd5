//! What a request is charged by.
use vstd::prelude::*;

use crate::types::{BillingType, ChannelModelPricing, Usage};

verus! {

/// The prompt tokens that an estimate assumes.
pub const ASSUMED_PROMPT_TOKENS: u64 = 500;

/// The completion tokens that an estimate assumes where the request sets no limit.
pub const ASSUMED_COMPLETION_TOKENS: u64 = 500;

/// What the cost of a request is computed from.
#[derive(Debug, PartialEq, Eq)]
pub enum CostBasis {
    /// The request is free.
    Free,
    /// So many tokens at the prices for a thousand of each kind.
    PerToken { prompt_tokens: u64, completion_tokens: u64 },
    /// The price of one call.
    PerCall,
    /// The value of an expression over the token counts.
    Expression { expr: String, prompt_tokens: u64, completion_tokens: u64 },
}

/// The basis of the cost of so many tokens: free without a pricing that charges anything, and
/// otherwise what the billing type says.
pub open spec fn basis_of(
    pricing: Option<ChannelModelPricing>,
    prompt_tokens: u64,
    completion_tokens: u64,
) -> CostBasis {
    match pricing {
        None => CostBasis::Free,
        Some(p) => if !p.spec_is_configured() {
            CostBasis::Free
        } else {
            match p.billing_type {
                BillingType::Token => CostBasis::PerToken { prompt_tokens, completion_tokens },
                BillingType::PerCall => CostBasis::PerCall,
                BillingType::Expression => CostBasis::Expression {
                    expr: p.billing_expr->0,
                    prompt_tokens,
                    completion_tokens,
                },
            }
        },
    }
}

/// An optional pricing by value.
pub open spec fn pricing_value(pricing: Option<&ChannelModelPricing>) -> Option<
    ChannelModelPricing,
> {
    match pricing {
        Some(p) => Some(*p),
        None => None,
    }
}

/// The basis of the cost of so many tokens.
pub fn cost_basis(
    pricing: Option<&ChannelModelPricing>,
    prompt_tokens: u64,
    completion_tokens: u64,
) -> (r: CostBasis)
    ensures
        r == basis_of(pricing_value(pricing), prompt_tokens, completion_tokens),
{
    match pricing {
        None => CostBasis::Free,
        Some(p) => {
            if !p.is_configured() {
                return CostBasis::Free;
            }
            match p.billing_type {
                BillingType::Token => CostBasis::PerToken { prompt_tokens, completion_tokens },
                BillingType::PerCall => CostBasis::PerCall,
                BillingType::Expression => match &p.billing_expr {
                    Some(expr) => CostBasis::Expression {
                        expr: expr.clone(),
                        prompt_tokens,
                        completion_tokens,
                    },
                    None => CostBasis::Free,
                },
            }
        },
    }
}

/// The basis of an estimate made before the request: an assumed prompt, and as many completion
/// tokens as the request allows.
pub open spec fn estimate_of(
    pricing: Option<ChannelModelPricing>,
    max_tokens: Option<u64>,
) -> CostBasis {
    basis_of(
        pricing,
        ASSUMED_PROMPT_TOKENS,
        match max_tokens {
            Some(n) => n,
            None => ASSUMED_COMPLETION_TOKENS,
        },
    )
}

/// The basis of an estimate made before the request.
pub fn estimate_basis(pricing: Option<&ChannelModelPricing>, max_tokens: Option<u64>) -> (r:
    CostBasis)
    ensures
        r == estimate_of(pricing_value(pricing), max_tokens),
{
    let completion_tokens: u64 = match max_tokens {
        Some(n) => n,
        None => ASSUMED_COMPLETION_TOKENS,
    };
    cost_basis(pricing, ASSUMED_PROMPT_TOKENS, completion_tokens)
}

/// The basis of the cost of a request that reported its usage.
pub fn actual_basis(usage: &Usage, pricing: Option<&ChannelModelPricing>) -> (r: CostBasis)
    ensures
        r == basis_of(pricing_value(pricing), usage.prompt_tokens, usage.completion_tokens),
{
    cost_basis(pricing, usage.prompt_tokens, usage.completion_tokens)
}

/// A request is free exactly where it has no pricing that charges anything.
pub proof fn law_free_without_pricing(
    pricing: Option<ChannelModelPricing>,
    prompt_tokens: u64,
    completion_tokens: u64,
)
    ensures
        basis_of(pricing, prompt_tokens, completion_tokens) is Free <==> (pricing is None
            || !pricing->0.spec_is_configured()),
{
}

/// A configured pricing charges by its own type: by the tokens of both kinds as they were counted,
/// by the call, or by its expression over those tokens.
pub proof fn law_costs_go_by_billing_type(p: ChannelModelPricing, prompt: u64, completion: u64)
    requires
        p.spec_is_configured(),
    ensures
        p.billing_type == BillingType::Token <==> basis_of(Some(p), prompt, completion) is PerToken,
        p.billing_type == BillingType::PerCall <==> basis_of(Some(p), prompt, completion)
            is PerCall,
        p.billing_type == BillingType::Expression <==> basis_of(Some(p), prompt, completion)
            is Expression,
        basis_of(Some(p), prompt, completion) matches CostBasis::PerToken {
            prompt_tokens,
            completion_tokens,
        } ==> prompt_tokens == prompt && completion_tokens == completion,
        basis_of(Some(p), prompt, completion) matches CostBasis::Expression {
            expr,
            prompt_tokens,
            completion_tokens,
        } ==> p.billing_expr == Some(expr) && prompt_tokens == prompt && completion_tokens
            == completion,
{
}

/// An estimate is the cost of five hundred tokens in and as many out, or as many out as the
/// request allows.
pub proof fn law_estimates_assume_the_limit(
    pricing: Option<ChannelModelPricing>,
    max_tokens: Option<u64>,
)
    ensures
        max_tokens is None ==> estimate_of(pricing, max_tokens) == basis_of(pricing, 500, 500),
        max_tokens matches Some(n) ==> estimate_of(pricing, max_tokens) == basis_of(
            pricing,
            500,
            n,
        ),
{
}

} // verus!
