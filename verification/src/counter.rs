//! A budget of operations that is handed out in batches.

use vstd::prelude::*;

verus! {

/// The state of a budget.
pub struct Budget {
    /// Operations asked for so far, held at `u64::MAX`.
    pub consumed: nat,
    /// Operations that may be granted in all.
    pub max: nat,
}

impl Budget {
    /// Both counts are those of a `u64`.
    pub open spec fn valid(self) -> bool {
        self.consumed <= u64::MAX && self.max <= u64::MAX
    }

    /// Whether nothing is left to grant.
    pub open spec fn exhausted(self) -> bool {
        self.consumed >= self.max
    }

    /// What is left to grant.
    pub open spec fn left(self) -> nat {
        if self.exhausted() {
            0
        } else {
            (self.max - self.consumed) as nat
        }
    }

    /// What a request for `count` operations is granted: all of it, or what
    /// is left.
    pub open spec fn grant(self, count: u64) -> nat {
        if count <= self.left() {
            count as nat
        } else {
            self.left()
        }
    }

    /// The budget after a request for `count` operations: the whole request
    /// counts as consumed, granted or not.
    pub open spec fn fetched(self, count: u64) -> Budget {
        Budget {
            consumed: if self.consumed + count <= u64::MAX {
                (self.consumed + count) as nat
            } else {
                u64::MAX as nat
            },
            ..self
        }
    }

    /// The budget after the requests in order.
    pub open spec fn after(self, requests: Seq<u64>) -> Budget
        decreases requests.len(),
    {
        if requests.len() == 0 {
            self
        } else {
            self.after(requests.drop_last()).fetched(requests.last())
        }
    }

    /// Sum of what the requests are granted in order.
    pub open spec fn granted(self, requests: Seq<u64>) -> nat
        decreases requests.len(),
    {
        if requests.len() == 0 {
            0
        } else {
            self.granted(requests.drop_last()) + self.after(requests.drop_last()).grant(
                requests.last(),
            )
        }
    }
}

/// A counter that hands out a budget of operations.
#[derive(Debug)]
pub struct Counter {
    current_count: u64,
    max_count: u64,
}

impl View for Counter {
    type V = Budget;

    closed spec fn view(&self) -> Budget {
        Budget { consumed: self.current_count as nat, max: self.max_count as nat }
    }
}

impl Counter {
    /// The budget of a counter is valid.
    pub proof fn lemma_valid(&self)
        ensures
            self@.valid(),
    {
    }

    pub fn new(max_count: u64) -> (counter: Counter)
        ensures
            counter@ == (Budget { consumed: 0, max: max_count as nat }),
    {
        Counter { current_count: 0, max_count }
    }

    /// Reserves `count` operations and returns how many of them the budget
    /// covers.
    pub fn fetch(&mut self, count: u64) -> (granted: u64)
        ensures
            granted == old(self)@.grant(count),
            final(self)@ == old(self)@.fetched(count),
    {
        let prev_count = self.current_count;
        self.current_count = prev_count.saturating_add(count);
        if prev_count >= self.max_count {
            return 0;
        }
        let left = self.max_count - prev_count;
        if left < count {
            left
        } else {
            count
        }
    }

    /// The budget.
    pub fn max_count(&self) -> (max: u64)
        ensures
            max == self@.max,
    {
        self.max_count
    }

    /// Operations asked for so far.
    pub fn current_count(&self) -> (consumed: u64)
        ensures
            consumed == self@.consumed,
    {
        self.current_count
    }
}

/// Whatever is asked for, all that is granted and what was left after it
/// make up what was left before: no more than the budget is ever granted.
pub proof fn lemma_grants_within_budget(budget: Budget, requests: Seq<u64>)
    requires
        budget.valid(),
    ensures
        budget.after(requests).valid(),
        budget.granted(requests) + budget.after(requests).left() == budget.left(),
        budget.granted(requests) <= budget.max,
        budget.after(requests).max == budget.max,
        budget.after(requests).consumed >= budget.consumed,
    decreases requests.len(),
{
    if requests.len() > 0 {
        lemma_grants_within_budget(budget, requests.drop_last());
    }
}

/// A request for at least one operation is granted none exactly when the
/// budget is exhausted, and an exhausted budget stays so: from then on no
/// request is granted anything.
pub proof fn lemma_exhausted_stays(budget: Budget, count: u64, requests: Seq<u64>, later: u64)
    requires
        budget.valid(),
        count > 0,
    ensures
        (budget.grant(count) == 0) == budget.exhausted(),
        budget.after(requests).valid(),
        budget.exhausted() ==> budget.after(requests).exhausted(),
        budget.exhausted() ==> budget.after(requests).grant(later) == 0,
    decreases requests.len(),
{
    if requests.len() > 0 {
        lemma_exhausted_stays(budget, count, requests.drop_last(), later);
    }
}

} // verus!
