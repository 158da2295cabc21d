//! What the workers of one run share: the budget of operations, the bound on
//! the measured time, the stop flag and the histogram.

use crate::async_flag::AsyncFlag;
use crate::clock::elapsed_nanos;
use crate::clock::instant_now;
use crate::clock::NANOS_PER_SEC;
use crate::counter::Budget;
use crate::counter::Counter;
use crate::histogram::recorded;
use crate::histogram::total_of;
use crate::histogram::valid_counts;
use crate::histogram::Histogram;
use crate::rate::widening_mul;
use std::time::Instant;
use vstd::prelude::*;

verus! {

/// The state of a run.
pub struct RunState {
    /// Whether the run loads data.
    pub is_loading: bool,
    /// The budget of operations; a budget of 0 is no bound.
    pub budget: Budget,
    /// Whether the measured time has begun.
    pub timer_armed: bool,
    /// Seconds of measured time after which no batch is granted; 0 is no bound.
    pub max_seconds: nat,
    /// Whether the run was told to stop.
    pub stopped: bool,
    /// The bucket counts of the latency histogram.
    pub counts: Seq<u64>,
}

/// What can happen to the state of a run.
pub enum ContextOp {
    /// A worker asks for a batch of `count` operations, `elapsed_nanos`
    /// nanoseconds into the measured time.
    Fetch { count: u64, elapsed_nanos: u64 },
    /// A worker tells the run to stop.
    Stop,
    /// The measured time begins.
    StartTimer,
    /// A latency is recorded.
    Record { latency_us: u64 },
}

impl RunState {
    pub open spec fn valid(self) -> bool {
        &&& self.budget.valid()
        &&& self.max_seconds <= u64::MAX
        &&& valid_counts(self.counts)
    }

    /// Whether the measured time is bounded and more of it has passed than
    /// the bound allows.
    pub open spec fn timed_out(self, elapsed_nanos: u64) -> bool {
        self.max_seconds != 0 && self.timer_armed && elapsed_nanos > self.max_seconds
            * NANOS_PER_SEC
    }

    /// Whether no batch is granted any more.
    pub open spec fn closed(self, elapsed_nanos: u64) -> bool {
        (self.budget.max != 0 && self.budget.exhausted()) || self.timed_out(elapsed_nanos)
    }

    /// The size of the batch that a request for `count` operations gets,
    /// `elapsed_nanos` nanoseconds into the measured time: nothing once
    /// more time has passed than the bound allows, else what the budget
    /// covers, and all of it without a budget.
    pub open spec fn grant(self, count: u64, elapsed_nanos: u64) -> nat {
        if self.timed_out(elapsed_nanos) {
            0
        } else if self.budget.max == 0 {
            count as nat
        } else {
            self.budget.grant(count)
        }
    }

    /// The state after a request for `count` operations.
    pub open spec fn fetched(self, count: u64) -> RunState {
        if self.budget.max == 0 {
            self
        } else {
            RunState { budget: self.budget.fetched(count), ..self }
        }
    }

    /// The state after the run was told to stop.
    pub open spec fn halted(self) -> RunState {
        RunState { stopped: true, ..self }
    }

    /// The state after the measured time was asked to begin.
    pub open spec fn timer_started(self) -> RunState {
        RunState { timer_armed: true, ..self }
    }

    /// The state after a latency was recorded.
    pub open spec fn with_record(self, latency_us: u64) -> RunState {
        RunState { counts: recorded(self.counts, latency_us as int), ..self }
    }

    pub open spec fn step(self, op: ContextOp) -> RunState {
        match op {
            ContextOp::Fetch { count, elapsed_nanos } => self.fetched(count),
            ContextOp::Stop => self.halted(),
            ContextOp::StartTimer => self.timer_started(),
            ContextOp::Record { latency_us } => self.with_record(latency_us),
        }
    }

    /// The state after `ops` in order.
    pub open spec fn after(self, ops: Seq<ContextOp>) -> RunState
        decreases ops.len(),
    {
        if ops.len() == 0 {
            self
        } else {
            self.after(ops.drop_last()).step(ops.last())
        }
    }

    /// What `op` is granted in this state: the batch of a request, and
    /// nothing for anything else.
    pub open spec fn grant_of(self, op: ContextOp) -> nat {
        match op {
            ContextOp::Fetch { count, elapsed_nanos } => self.grant(count, elapsed_nanos),
            _ => 0,
        }
    }

    /// Sum of the batches that are granted in the course of `ops`.
    pub open spec fn granted(self, ops: Seq<ContextOp>) -> nat
        decreases ops.len(),
    {
        if ops.len() == 0 {
            0
        } else {
            self.granted(ops.drop_last()) + self.after(ops.drop_last()).grant_of(ops.last())
        }
    }
}

pub struct SharedContext {
    is_loading: bool,
    counter: Counter,
    instant: Option<Instant>,
    max_seconds: u64,
    stop_flag: AsyncFlag,
    histogram: Histogram,
}

impl View for SharedContext {
    type V = RunState;

    closed spec fn view(&self) -> RunState {
        RunState {
            is_loading: self.is_loading,
            budget: self.counter@,
            timer_armed: self.instant is Some,
            max_seconds: self.max_seconds as nat,
            stopped: self.stop_flag@,
            counts: self.histogram@,
        }
    }
}

impl SharedContext {
    pub closed spec fn wf(&self) -> bool {
        self.histogram.wf()
    }

    /// The moment at which the measured time began, if it has.
    pub closed spec fn started(&self) -> Option<Instant> {
        self.instant
    }

    /// The measured time has begun exactly if its beginning is known.
    pub proof fn lemma_started(&self)
        ensures
            self@.timer_armed == (self.started() is Some),
    {
    }

    /// The state of a well-formed context is valid.
    pub proof fn lemma_wf(&self)
        requires
            self.wf(),
        ensures
            self@.valid(),
    {
        self.counter.lemma_valid();
        self.histogram.lemma_wf();
    }

    /// The context of a run that may perform `max_count` operations and
    /// measure for `max_seconds` seconds, 0 being no bound.
    pub fn new(max_count: u64, max_seconds: u64, is_loading: bool) -> (context: SharedContext)
        ensures
            context.wf(),
            context@ == (RunState {
                is_loading,
                budget: Budget { consumed: 0, max: max_count as nat },
                timer_armed: false,
                max_seconds: max_seconds as nat,
                stopped: false,
                counts: crate::histogram::empty_counts(),
            }),
            total_of(context@.counts) == 0,
            context.started() is None,
    {
        SharedContext {
            is_loading,
            counter: Counter::new(max_count),
            instant: None,
            max_seconds,
            stop_flag: AsyncFlag::new(),
            histogram: Histogram::new(),
        }
    }

    /// Tells the run to stop.
    pub fn stop(&mut self)
        requires
            old(self).wf(),
        ensures
            final(self).wf(),
            final(self)@ == old(self)@.halted(),
            final(self).started() == old(self).started(),
    {
        self.stop_flag.set_flag();
    }

    /// Whether the run was told to stop. Who waits for the run to stop
    /// waits until this holds.
    pub fn is_stopped(&self) -> (stopped: bool)
        ensures
            stopped == self@.stopped,
    {
        self.stop_flag.is_set()
    }

    /// Begins the measured time, unless it has begun: a beginning that is
    /// known stays as it is.
    pub fn start_timer(&mut self)
        requires
            old(self).wf(),
        ensures
            final(self).wf(),
            final(self)@ == old(self)@.timer_started(),
            final(self).started() is Some,
            old(self)@.timer_armed ==> final(self).started() == old(self).started(),
    {
        if self.instant.is_none() {
            self.instant = Some(instant_now());
        }
    }

    /// Nanoseconds of measured time that have passed, and 0 before it has
    /// begun.
    pub fn measured_nanos(&self) -> (nanos: u64)
        ensures
            !self@.timer_armed ==> nanos == 0,
    {
        match &self.instant {
            Some(instant) => elapsed_nanos(instant),
            None => 0,
        }
    }

    /// Asks for a batch of `count` operations, at the present moment of
    /// the measured time.
    pub fn fetch(&mut self, count: u64) -> (granted: u64)
        requires
            old(self).wf(),
        ensures
            final(self).wf(),
            final(self)@ == old(self)@.fetched(count),
            final(self).started() == old(self).started(),
            exists|elapsed_nanos: u64| granted == #[trigger] old(self)@.grant(count, elapsed_nanos),
            granted <= count,
    {
        let elapsed = self.measured_nanos();
        let granted = self.fetch_at(count, elapsed);
        assert(granted == old(self)@.grant(count, elapsed));
        granted
    }

    /// Asks for a batch of `count` operations, `elapsed_nanos` nanoseconds
    /// into the measured time. With a budget the whole request is reserved
    /// and the batch is what the budget covers of it; without one the batch
    /// is the request. Once the measured time has begun, is bounded, and
    /// more of it has passed than the bound allows, the batch is empty. A
    /// worker that gets an empty batch stops the run.
    pub fn fetch_at(&mut self, count: u64, elapsed_nanos: u64) -> (granted: u64)
        requires
            old(self).wf(),
        ensures
            final(self).wf(),
            final(self)@ == old(self)@.fetched(count),
            granted == old(self)@.grant(count, elapsed_nanos),
            granted <= count,
            final(self).started() == old(self).started(),
    {
        let mut result = count;
        if self.counter.max_count() != 0 {
            result = self.counter.fetch(count);
        }
        let bound = widening_mul(self.max_seconds, NANOS_PER_SEC);
        if self.max_seconds != 0 && self.instant.is_some() && elapsed_nanos as u128 > bound {
            return 0;
        }
        result
    }

    /// Whether the run loads data.
    pub fn is_loading(&self) -> (is_loading: bool)
        ensures
            is_loading == self@.is_loading,
    {
        self.is_loading
    }

    /// The latency histogram of the run.
    pub fn histogram(&self) -> (histogram: &Histogram)
        requires
            self.wf(),
        ensures
            histogram.wf(),
            histogram@ == self@.counts,
    {
        &self.histogram
    }

    /// Records the latency of one operation.
    pub fn record(&mut self, latency_us: u64)
        requires
            old(self).wf(),
            total_of(old(self)@.counts) < u64::MAX,
        ensures
            final(self).wf(),
            final(self)@ == old(self)@.with_record(latency_us),
            total_of(final(self)@.counts) == total_of(old(self)@.counts) + 1,
            final(self).started() == old(self).started(),
    {
        self.histogram.record(latency_us);
    }
}

/// In a run with a budget, whatever happens in whatever order, the batches
/// granted add up to no more than what the budget had left at the start, so
/// to no more than the budget.
pub proof fn lemma_granted_within_budget(state: RunState, ops: Seq<ContextOp>)
    requires
        state.budget.valid(),
        state.budget.max != 0,
    ensures
        state.after(ops).budget.valid(),
        state.after(ops).budget.max == state.budget.max,
        state.granted(ops) + state.after(ops).budget.left() <= state.budget.left(),
        state.granted(ops) <= state.budget.max,
    decreases ops.len(),
{
    if ops.len() > 0 {
        lemma_granted_within_budget(state, ops.drop_last());
    }
}

/// A request for at least one operation is granted none exactly when the
/// run is closed. A run that is closed stays so whatever happens: every
/// request made no earlier in the measured time is granted none.
pub proof fn lemma_zero_grant_is_final(
    state: RunState,
    count: u64,
    elapsed_nanos: u64,
    ops: Seq<ContextOp>,
    later_count: u64,
    later_nanos: u64,
)
    requires
        state.budget.valid(),
        count > 0,
        elapsed_nanos <= later_nanos,
    ensures
        (state.grant(count, elapsed_nanos) == 0) == state.closed(elapsed_nanos),
        state.after(ops).budget.valid(),
        state.closed(elapsed_nanos) ==> state.after(ops).closed(later_nanos),
        state.closed(elapsed_nanos) ==> state.after(ops).grant(later_count, later_nanos) == 0,
    decreases ops.len(),
{
    if ops.len() > 0 {
        lemma_zero_grant_is_final(
            state,
            count,
            elapsed_nanos,
            ops.drop_last(),
            later_count,
            later_nanos,
        );
    }
}

/// Telling a run to stop twice is telling it once, and nothing that happens
/// to a stopped run starts it again.
pub proof fn lemma_stop_is_final(state: RunState, ops: Seq<ContextOp>)
    ensures
        state.halted().halted() == state.halted(),
        state.stopped ==> state.after(ops).stopped,
        state.halted().after(ops).stopped,
    decreases ops.len(),
{
    if ops.len() > 0 {
        lemma_stop_is_final(state, ops.drop_last());
        lemma_stop_is_final(state.halted(), ops.drop_last());
    }
}

} // verus!
