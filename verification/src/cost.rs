//! Token totals over a set of results: the counts from which a cost report is made.

use vstd::prelude::*;

use crate::types::TokenUsage;

verus! {

/// Accumulated token counts over a set of results.
#[derive(Debug, Clone, Copy, PartialEq, Eq, Structural)]
pub struct UsageTotals {
    pub items: u64,
    pub prompt_tokens: u64,
    pub completion_tokens: u64,
    /// Cached input tokens, a subset of `prompt_tokens`.
    pub cached_tokens: u64,
    /// Reasoning tokens, a subset of `completion_tokens`.
    pub reasoning_tokens: u64,
}

impl Default for UsageTotals {
    fn default() -> (t: Self)
        ensures
            t == no_totals(),
    {
        UsageTotals {
            items: 0,
            prompt_tokens: 0,
            completion_tokens: 0,
            cached_tokens: 0,
            reasoning_tokens: 0,
        }
    }
}

/// Nothing counted.
pub open spec fn no_totals() -> UsageTotals {
    UsageTotals {
        items: 0,
        prompt_tokens: 0,
        completion_tokens: 0,
        cached_tokens: 0,
        reasoning_tokens: 0,
    }
}

/// The totals with one item's usage folded in.
pub open spec fn with_usage(t: UsageTotals, u: TokenUsage) -> UsageTotals {
    UsageTotals {
        items: (t.items + 1) as u64,
        prompt_tokens: (t.prompt_tokens + u.prompt_tokens) as u64,
        completion_tokens: (t.completion_tokens + u.completion_tokens) as u64,
        cached_tokens: (t.cached_tokens + u.cached_tokens) as u64,
        reasoning_tokens: (t.reasoning_tokens + u.reasoning_tokens) as u64,
    }
}

/// One item's usage fits in the counters.
pub open spec fn usage_fits(t: UsageTotals, u: TokenUsage) -> bool {
    &&& t.items < u64::MAX
    &&& t.prompt_tokens + u.prompt_tokens <= u64::MAX
    &&& t.completion_tokens + u.completion_tokens <= u64::MAX
    &&& t.cached_tokens + u.cached_tokens <= u64::MAX
    &&& t.reasoning_tokens + u.reasoning_tokens <= u64::MAX
}

impl UsageTotals {
    /// Prompt and completion tokens together.
    pub fn total_tokens(&self) -> (r: u64)
        requires
            self.prompt_tokens + self.completion_tokens <= u64::MAX,
        ensures
            r == self.prompt_tokens + self.completion_tokens,
    {
        self.prompt_tokens + self.completion_tokens
    }

    /// Whether one item's usage fits in the counters.
    pub fn fits(&self, u: &TokenUsage) -> (r: bool)
        ensures
            r == usage_fits(*self, *u),
    {
        self.items < 0xffff_ffff_ffff_ffff && self.prompt_tokens.checked_add(
            u.prompt_tokens,
        ).is_some() && self.completion_tokens.checked_add(u.completion_tokens).is_some()
            && self.cached_tokens.checked_add(u.cached_tokens).is_some()
            && self.reasoning_tokens.checked_add(u.reasoning_tokens).is_some()
    }

    /// Fold one item's usage in.
    pub fn add(&mut self, u: &TokenUsage)
        requires
            usage_fits(*old(self), *u),
        ensures
            *final(self) == with_usage(*old(self), *u),
    {
        self.items = self.items + 1;
        self.cached_tokens = self.cached_tokens + u.cached_tokens;
        self.reasoning_tokens = self.reasoning_tokens + u.reasoning_tokens;
        self.prompt_tokens = self.prompt_tokens + u.prompt_tokens;
        self.completion_tokens = self.completion_tokens + u.completion_tokens;
    }
}

/// The order in which results are folded does not change the totals.
pub proof fn law_usage_fold_commutes(t: UsageTotals, a: TokenUsage, b: TokenUsage)
    requires
        usage_fits(t, a),
        usage_fits(with_usage(t, a), b),
    ensures
        usage_fits(t, b),
        usage_fits(with_usage(t, b), a),
        with_usage(with_usage(t, a), b) == with_usage(with_usage(t, b), a),
{
}

/// One more result adds one item and each of its counts to the totals.
pub proof fn law_totals_add_each_count(before: UsageTotals, after: UsageTotals, u: &TokenUsage, total: u64)
    requires
        usage_fits(before, *u),
        exists|t: &mut UsageTotals|
            *t == before && *final(t) == after && #[trigger] call_ensures(
                UsageTotals::add,
                (t, u),
                (),
            ),
        call_ensures(UsageTotals::total_tokens, (&after,), total),
    ensures
        after.items == before.items + 1,
        after.prompt_tokens == before.prompt_tokens + u.prompt_tokens,
        after.completion_tokens == before.completion_tokens + u.completion_tokens,
        after.cached_tokens == before.cached_tokens + u.cached_tokens,
        after.reasoning_tokens == before.reasoning_tokens + u.reasoning_tokens,
        total == after.prompt_tokens + after.completion_tokens,
{
}

} // verus!
