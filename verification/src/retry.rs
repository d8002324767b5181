//! Retry bookkeeping: the budget of corrective retries in one guardrail loop,
//! and the corrective nudge message.
use vstd::prelude::*;

use crate::json::{object2, string_value, Json, JsonValue};

verus! {

/// Tracks how many corrective retries remain in a single guardrail loop.
#[derive(Debug)]
pub struct ErrorTracker {
    max_retries: u32,
    attempts: u32,
}

/// The model of an [`ErrorTracker`]: its budget and the retries issued.
pub struct TrackerView {
    pub max_retries: nat,
    pub attempts: nat,
}

impl View for ErrorTracker {
    type V = TrackerView;

    closed spec fn view(&self) -> TrackerView {
        TrackerView { max_retries: self.max_retries as nat, attempts: self.attempts as nat }
    }
}

/// A fresh tracker with budget `max_retries`.
pub open spec fn fresh(max_retries: nat) -> TrackerView {
    TrackerView { max_retries, attempts: 0 }
}

/// Another retry is within budget.
pub open spec fn within_budget(t: TrackerView) -> bool {
    t.attempts < t.max_retries
}

/// The tracker after one more retry.
pub open spec fn recorded(t: TrackerView) -> TrackerView {
    TrackerView { max_retries: t.max_retries, attempts: t.attempts + 1 }
}

/// The tracker after `k` more retries.
pub open spec fn recorded_n(t: TrackerView, k: nat) -> TrackerView
    decreases k,
{
    if k == 0 {
        t
    } else {
        recorded(recorded_n(t, (k - 1) as nat))
    }
}

impl ErrorTracker {
    pub fn new(max_retries: u32) -> (r: Self)
        ensures
            r@ == fresh(max_retries as nat),
    {
        ErrorTracker { max_retries, attempts: 0 }
    }

    /// Whether another retry is still within budget.
    pub fn can_retry(&self) -> (r: bool)
        ensures
            r == within_budget(self@),
    {
        self.attempts < self.max_retries
    }

    /// Records that a retry is being issued.
    pub fn record_retry(&mut self)
        requires
            old(self)@.attempts < u32::MAX,
        ensures
            final(self)@ == recorded(old(self)@),
        no_unwind
    {
        self.attempts = self.attempts + 1;
    }

    /// A tracker's counts fit in `u32`.
    pub proof fn lemma_bounds(&self)
        ensures
            self@.max_retries <= u32::MAX,
            self@.attempts <= u32::MAX,
    {
    }

    /// Number of retries issued so far.
    pub fn attempts(&self) -> (r: u32)
        ensures
            r == self@.attempts,
    {
        self.attempts
    }
}

/// The budget is respected: after `k` retries from a fresh tracker with budget
/// `max`, `k` retries have been counted and another is allowed exactly when
/// `k < max` (so a zero budget never retries).
pub proof fn law_budget(max: nat, k: nat)
    ensures
        recorded_n(fresh(max), k).attempts == k,
        recorded_n(fresh(max), k).max_retries == max,
        within_budget(recorded_n(fresh(max), k)) <==> k < max,
    decreases k,
{
    if k > 0 {
        law_budget(max, (k - 1) as nat);
    }
}

/// The corrective nudge as a `user` message to append to the conversation,
/// members in the order `serde_json` keeps them.
pub fn nudge_message(nudge: &str) -> (r: JsonValue)
    ensures
        r@ == Json::Object(seq![("content"@, Json::Str(nudge@)), ("role"@, Json::Str("user"@))]),
{
    object2("content", string_value(nudge), "role", string_value("user"))
}

} // verus!
