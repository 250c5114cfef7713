//! How often a download is tried again.

use vstd::prelude::*;

verus! {

/// A download may be tried again this often, and has been this often.
#[derive(Debug, Clone, Copy)]
pub struct RetryPolicy {
    max_retries: u32,
    tries: u32,
}

/// A policy in specifications.
pub struct RetryView {
    pub max_retries: u32,
    pub tries: u32,
}

impl View for RetryPolicy {
    type V = RetryView;

    closed spec fn view(&self) -> RetryView {
        RetryView { max_retries: self.max_retries, tries: self.tries }
    }
}

/// Whether to try again, and the policy after it. Only an error of the transfer itself is a
/// reason to, and only while there are tries left.
pub open spec fn retried(policy: RetryView, transfer_failed: bool) -> (RetryView, bool) {
    if transfer_failed && policy.tries < policy.max_retries {
        (RetryView { tries: (policy.tries + 1) as u32, ..policy }, true)
    } else {
        (policy, false)
    }
}

impl RetryPolicy {
    /// A policy that allows `max_retries` more tries.
    pub fn new(max_retries: u32) -> (policy: Self)
        ensures
            policy@ == (RetryView { max_retries, tries: 0 }),
    {
        RetryPolicy { max_retries, tries: 0 }
    }

    /// Whether to try again after an attempt; `transfer_failed` says that the transfer
    /// itself failed, and not something on this side of it.
    pub fn retry(&mut self, transfer_failed: bool) -> (again: bool)
        ensures
            (final(self)@, again) == retried(old(self)@, transfer_failed),
    {
        if transfer_failed && self.tries < self.max_retries {
            self.tries = self.tries + 1;
            true
        } else {
            false
        }
    }
}

/// How many tries are left.
pub open spec fn allowance(policy: RetryView) -> nat {
    if policy.tries < policy.max_retries {
        (policy.max_retries - policy.tries) as nat
    } else {
        0
    }
}

/// How many of the first `n` are true.
pub open spec fn count(list: Seq<bool>, n: nat) -> nat
    decreases n,
{
    if n == 0 {
        0
    } else {
        count(list, (n - 1) as nat) + if list[n - 1] {
            1nat
        } else {
            0nat
        }
    }
}

/// The policy after the first `n` attempts, and which of them were tried again. Of each
/// attempt it is said whether the transfer failed.
pub open spec fn decided(policy: RetryView, failed: Seq<bool>, n: nat) -> (RetryView, Seq<bool>)
    decreases n,
{
    if n == 0 {
        (policy, seq![])
    } else {
        let (before, decisions) = decided(policy, failed, (n - 1) as nat);
        let (after, again) = retried(before, failed[n - 1]);
        (after, decisions.push(again))
    }
}

/// Of any attempts, those whose transfer failed are tried again as long as there are tries
/// left, and no others: the first ones, and as many as failed or as were left.
pub proof fn law_first_failures_are_tried_again(policy: RetryView, failed: Seq<bool>, n: nat)
    requires
        n <= failed.len(),
    ensures
        ({
            let (after, decisions) = decided(policy, failed, n);
            &&& decisions.len() == n
            &&& forall|i: int|
                0 <= i < n ==> (#[trigger] decisions[i] <==> failed[i] && count(failed, i as nat)
                    < allowance(policy))
            &&& count(decisions, n) == if count(failed, n) <= allowance(policy) {
                count(failed, n)
            } else {
                allowance(policy)
            }
            &&& allowance(after) == allowance(policy) - count(decisions, n)
        }),
    decreases n,
{
    if n > 0 {
        law_first_failures_are_tried_again(policy, failed, (n - 1) as nat);
        let before = decided(policy, failed, (n - 1) as nat).1;
        let now = decided(policy, failed, n).1;
        assert(forall|i: int| 0 <= i < n - 1 ==> now[i] == before[i]);
        lemma_same_count(before, now, (n - 1) as nat);
    }
}

proof fn lemma_same_count(one: Seq<bool>, other: Seq<bool>, n: nat)
    requires
        forall|i: int| 0 <= i < n ==> one[i] == other[i],
    ensures
        count(one, n) == count(other, n),
    decreases n,
{
    if n > 0 {
        lemma_same_count(one, other, (n - 1) as nat);
    }
}

} // verus!
