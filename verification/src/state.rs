//! The item state machine: `Pending -> Leased -> Done | DeadLetter`.
//!
//! There are no inter-item edges. No transition depends on the state of
//! another item, so this is a work queue and not a scheduler.

use vstd::prelude::*;

use crate::text::str_eq;

verus! {

/// The lifecycle of a single fan-out item.
///
/// ```text
///   Pending --lease--> Leased --ack (after the store write)--> Done
///      ^                  |
///      +--reap (expired)--+ --retries exhausted--> DeadLetter
/// ```
#[derive(Debug, Clone, Copy, PartialEq, Eq, Hash, Structural)]
pub enum ItemState {
    /// Waiting to be leased.
    Pending,
    /// Leased to a worker until `leased_until`; counted as in flight.
    Leased,
    /// Result durably written to the store, then acked. Terminal, success.
    Done,
    /// Retries exhausted. Terminal, failure.
    DeadLetter,
}

impl Default for ItemState {
    fn default() -> (state: Self)
        ensures
            state == ItemState::Pending,
    {
        ItemState::Pending
    }
}

/// A state that is never leased again.
pub open spec fn terminal(state: ItemState) -> bool {
    state == ItemState::Done || state == ItemState::DeadLetter
}

/// The edges of the lifecycle graph.
pub open spec fn legal_transition(from: ItemState, to: ItemState) -> bool {
    ||| (from == ItemState::Pending && to == ItemState::Leased)
    ||| (from == ItemState::Leased && to != ItemState::Leased)
}

/// The wire and storage token of a state.
pub open spec fn state_token(state: ItemState) -> Seq<char> {
    match state {
        ItemState::Pending => "pending"@,
        ItemState::Leased => "leased"@,
        ItemState::Done => "done"@,
        ItemState::DeadLetter => "dead_letter"@,
    }
}

impl ItemState {
    /// Terminal states are never leased again.
    pub fn is_terminal(self) -> (r: bool)
        ensures
            r == terminal(self),
    {
        matches!(self, ItemState::Done | ItemState::DeadLetter)
    }

    /// Whether a transition is legal. A queue must reject anything else, so an
    /// out-of-order ack or reap can never corrupt progress.
    pub fn can_transition_to(self, next: ItemState) -> (r: bool)
        ensures
            r == legal_transition(self, next),
    {
        match self {
            ItemState::Pending => matches!(next, ItemState::Leased),
            ItemState::Leased => !matches!(next, ItemState::Leased),
            ItemState::Done | ItemState::DeadLetter => false,
        }
    }

    /// Wire and storage token for this state.
    pub fn as_str(self) -> (r: &'static str)
        ensures
            r@ == state_token(self),
    {
        match self {
            ItemState::Pending => "pending",
            ItemState::Leased => "leased",
            ItemState::Done => "done",
            ItemState::DeadLetter => "dead_letter",
        }
    }

    /// The state whose token is `token`, if there is one.
    pub fn from_token(token: &str) -> (r: Option<ItemState>)
        ensures
            r matches Some(s) ==> state_token(s) == token@,
            r is None ==> forall|s: ItemState| state_token(s) != token@,
    {
        if str_eq(token, "pending") {
            Some(ItemState::Pending)
        } else if str_eq(token, "leased") {
            Some(ItemState::Leased)
        } else if str_eq(token, "done") {
            Some(ItemState::Done)
        } else if str_eq(token, "dead_letter") {
            Some(ItemState::DeadLetter)
        } else {
            None
        }
    }
}

/// A terminal state has no way out.
pub proof fn law_terminal_states_are_final(from: ItemState, to: ItemState)
    requires
        terminal(from),
    ensures
        !legal_transition(from, to),
{
}

/// No state is reached from `Pending` without a lease.
pub proof fn law_every_item_is_leased_first(to: ItemState)
    ensures
        legal_transition(ItemState::Pending, to) <==> to == ItemState::Leased,
{
}

/// Distinct states have distinct tokens, so a stored token names one state.
pub proof fn law_tokens_are_distinct(a: ItemState, b: ItemState)
    ensures
        state_token(a) == state_token(b) ==> a == b,
{
    reveal_strlit("pending");
    reveal_strlit("leased");
    reveal_strlit("done");
    reveal_strlit("dead_letter");
    assert("pending"@.len() == 7);
    assert("leased"@.len() == 6);
    assert("done"@.len() == 4);
    assert("dead_letter"@.len() == 11);
}

/// An item is leased from waiting, and from there is done, dead, or waits again; nothing
/// leads out of done or dead.
pub proof fn law_the_lifecycle_is_as_drawn(from: ItemState, to: ItemState, r: bool, end: bool)
    requires
        call_ensures(ItemState::can_transition_to, (from, to), r),
        call_ensures(ItemState::is_terminal, (from,), end),
    ensures
        from == ItemState::Pending ==> (r <==> to == ItemState::Leased),
        from == ItemState::Leased ==> (r <==> to == ItemState::Pending || to == ItemState::Done || to
            == ItemState::DeadLetter),
        from == ItemState::Done || from == ItemState::DeadLetter ==> !r && end,
        from == ItemState::Pending || from == ItemState::Leased ==> !end,
{
}

/// Each state has its stored token, and the token leads back to it.
pub proof fn law_states_are_stored_by_token(s: ItemState, token: &'static str, back: Option<ItemState>)
    requires
        call_ensures(ItemState::as_str, (s,), token),
        call_ensures(ItemState::from_token, (token,), back),
    ensures
        s == ItemState::Pending ==> token@ == "pending"@,
        s == ItemState::Leased ==> token@ == "leased"@,
        s == ItemState::Done ==> token@ == "done"@,
        s == ItemState::DeadLetter ==> token@ == "dead_letter"@,
        back == Some(s),
{
    if let Some(t) = back {
        law_tokens_are_distinct(s, t);
    }
}

} // verus!
