//! The controller that finds the number of connections at which throughput
//! stops growing: it owns one admission gate per shard and raises their
//! ceilings while the measured throughput keeps up.

use crate::clock::elapsed_nanos;
use crate::clock::instant_now;
use crate::conn_limiter::ConnLimiter;
use crate::conn_limiter::Gate;
use crate::histogram::total_of;
use crate::histogram::Histogram;
use crate::rate::Rate;
use std::time::Instant;
use vstd::arithmetic::div_mod::lemma_fundamental_div_mod_converse;
use vstd::prelude::*;

verus! {

/// Connection budget of a run that is to find its own.
pub const MAX_CONN: u64 = 1024;

/// A sample of the throughput is taken over no less than half a second.
pub const MIN_SAMPLE_NANOS: u64 = 500_000_000;

/// After three seconds a sample is judged even if throughput has not doubled.
pub const FORCE_SAMPLE_NANOS: u64 = 3_000_000_000;

/// Throughput that has grown by this factor is judged at once: 2.
pub const SURGE_NUMER: u8 = 2;

pub const SURGE_DENOM: u8 = 1;

/// Throughput must grow by more than this factor for the ramp to go on: 1.3.
pub const GROWTH_NUMER: u8 = 13;

pub const GROWTH_DENOM: u8 = 10;

/// The capacity of shard `index` when `total` connections are dealt out to
/// `shards` shards: the shares differ by one at most, the larger come first.
pub open spec fn share(total: nat, shards: nat, index: nat) -> nat {
    total / shards + if index < total % shards {
        1nat
    } else {
        0nat
    }
}

/// Sum of the capacities of the first `n` gates.
pub open spec fn capacity_upto(gates: Seq<Gate>, n: int) -> nat
    decreases n,
{
    if n <= 0 {
        0
    } else {
        capacity_upto(gates, n - 1) + gates[n - 1].capacity
    }
}

/// Sum of the active counts of the first `n` gates.
pub open spec fn active_upto(gates: Seq<Gate>, n: int) -> nat
    decreases n,
{
    if n <= 0 {
        0
    } else {
        active_upto(gates, n - 1) + gates[n - 1].active
    }
}

/// Sum of the ceilings of the first `n` gates.
pub open spec fn target_upto(gates: Seq<Gate>, n: int) -> nat
    decreases n,
{
    if n <= 0 {
        0
    } else {
        target_upto(gates, n - 1) + gates[n - 1].target
    }
}

/// The gates after the ceiling of one of them was asked to rise.
pub open spec fn raise_at(gates: Seq<Gate>, index: int) -> Seq<Gate> {
    gates.update(index, gates[index].raised())
}

/// The gates after `n` requests to raise a ceiling, dealt out in turn from
/// the one at `cursor` on.
pub open spec fn raise_round_robin(gates: Seq<Gate>, cursor: nat, n: nat) -> Seq<Gate>
    decreases n,
{
    if n == 0 {
        gates
    } else {
        raise_at(
            raise_round_robin(gates, cursor, (n - 1) as nat),
            ((cursor + n - 1) % gates.len() as int),
        )
    }
}

/// How many of `n` requests, dealt out in turn over `shards` gates from the
/// one at `cursor` on, go to the one at `index`.
pub open spec fn visits(shards: nat, cursor: nat, n: nat, index: nat) -> nat
    decreases n,
{
    if n == 0 {
        0
    } else {
        visits(shards, cursor, (n - 1) as nat, index) + if (cursor + n - 1) % shards as int
            == index {
            1nat
        } else {
            0nat
        }
    }
}

/// The ceiling that a gate has after `extra` requests to raise it.
pub open spec fn raised_by(gate: Gate, extra: nat) -> Gate {
    Gate {
        target: if gate.target + extra <= gate.capacity || gate.target > gate.capacity {
            gate.target + extra
        } else {
            gate.capacity
        },
        ..gate
    }
}

/// What the controller makes of a sample.
pub enum Verdict {
    /// Too early to judge, or no judgement is due: nothing changes.
    Hold,
    /// Throughput keeps growing: ask for this many more connections.
    Ramp(nat),
    /// Throughput has stopped growing: the ramp is over.
    Settle,
}

/// The state of the controller.
pub struct Controller {
    /// Whether the ramp is over.
    pub ready: bool,
    /// The gates, one per shard.
    pub gates: Seq<Gate>,
    /// Operations counted when the last sample was taken.
    pub last_count: nat,
    /// Throughput of the last sample.
    pub last_rate: Rate,
    /// Index of the shard that the next request to raise a ceiling goes to.
    pub cursor: nat,
}

impl Controller {
    pub open spec fn valid(self) -> bool {
        &&& self.gates.len() > 0
        &&& forall|i: int| 0 <= i < self.gates.len() ==> (#[trigger] self.gates[i]).valid()
        &&& capacity_upto(self.gates, self.gates.len() as int) <= u64::MAX
        &&& self.cursor < self.gates.len()
        &&& self.last_rate.nanos > 0
        &&& self.last_count <= u64::MAX
    }

    /// Connections admitted over all shards.
    pub open spec fn active(self) -> nat {
        active_upto(self.gates, self.gates.len() as int)
    }

    /// Sum of the ceilings of all shards.
    pub open spec fn target(self) -> nat {
        target_upto(self.gates, self.gates.len() as int)
    }

    /// Sum of the capacities of all shards.
    pub open spec fn capacity(self) -> nat {
        capacity_upto(self.gates, self.gates.len() as int)
    }

    /// The throughput of a sample: the operations since the last one over the
    /// time since then.
    pub open spec fn rate(self, count: u64, elapsed_nanos: u64) -> Rate {
        Rate { ops: (count - self.last_count) as u64, nanos: elapsed_nanos }
    }

    /// What a sample of `count` operations, taken `elapsed_nanos` after the
    /// last one, leads to.
    pub open spec fn verdict(self, count: u64, elapsed_nanos: u64) -> Verdict {
        let rate = self.rate(count, elapsed_nanos);
        if self.ready || elapsed_nanos < MIN_SAMPLE_NANOS {
            Verdict::Hold
        } else if !(rate.at_least(self.last_rate, SURGE_NUMER as int, SURGE_DENOM as int)
            || elapsed_nanos >= FORCE_SAMPLE_NANOS) {
            Verdict::Hold
        } else if self.last_rate.is_zero() {
            Verdict::Ramp(1)
        } else if rate.exceeds(self.last_rate, GROWTH_NUMER as int, GROWTH_DENOM as int) {
            Verdict::Ramp(self.active())
        } else {
            Verdict::Settle
        }
    }

    /// The controller after that sample.
    pub open spec fn adjusted(self, count: u64, elapsed_nanos: u64) -> Controller {
        match self.verdict(count, elapsed_nanos) {
            Verdict::Hold => self,
            Verdict::Settle => Controller { ready: true, ..self },
            Verdict::Ramp(n) => Controller {
                gates: raise_round_robin(self.gates, self.cursor, n),
                cursor: ((self.cursor + n) as int % self.gates.len() as int) as nat,
                last_count: count as nat,
                last_rate: self.rate(count, elapsed_nanos),
                ..self
            },
        }
    }

    /// The controller after a connection of shard `shard` asked for admission.
    pub open spec fn admitted(self, shard: int) -> Controller {
        Controller { gates: self.gates.update(shard, self.gates[shard].admitted()), ..self }
    }

    /// The controller after the samples `(count, elapsed_nanos)` in order.
    pub open spec fn after(self, samples: Seq<(u64, u64)>) -> Controller
        decreases samples.len(),
    {
        if samples.len() == 0 {
            self
        } else {
            self.after(samples.drop_last()).adjusted(samples.last().0, samples.last().1)
        }
    }
}

/// The gates of a list of limiters.
pub open spec fn gates_of(limiters: Seq<ConnLimiter>) -> Seq<Gate> {
    Seq::new(limiters.len(), |i: int| limiters[i]@)
}

pub struct AutoConnection {
    ready: bool,
    limiters: Vec<ConnLimiter>,
    last_cnt: u64,
    last_qps: Rate,
    instant: Instant,
    inx: usize,
}

impl View for AutoConnection {
    type V = Controller;

    closed spec fn view(&self) -> Controller {
        Controller {
            ready: self.ready,
            gates: gates_of(self.limiters@),
            last_count: self.last_cnt as nat,
            last_rate: self.last_qps,
            cursor: self.inx as nat,
        }
    }
}

impl AutoConnection {
    pub open spec fn wf(&self) -> bool {
        self@.valid()
    }

    /// The moment at which the sample that is being taken began: when the
    /// controller was made, or when it last asked for connections.
    pub closed spec fn sample_start(&self) -> Instant {
        self.instant
    }

    /// A controller for `thread_count` shards. With `active_conn` above zero
    /// the run has that many connections: they are dealt out to the shards,
    /// every ceiling stands at its capacity, and there is no ramp. With
    /// `active_conn` zero, `MAX_CONN` connections are dealt out, every
    /// ceiling stands at zero, and the ramp is still to come.
    pub fn new(active_conn: u64, thread_count: u64) -> (controller: AutoConnection)
        requires
            0 < thread_count <= usize::MAX,
        ensures
            controller.wf(),
            controller@ == Self::initial(active_conn, thread_count, MAX_CONN),
            controller@.capacity() == Self::budget(active_conn, MAX_CONN),
            controller@.active() == 0,
            controller@.target() == active_conn,
    {
        Self::with_max_conn(active_conn, thread_count, MAX_CONN)
    }

    /// The connections that are dealt out to the shards: what the run asks
    /// for, or `max_conn` where it asks for none.
    pub open spec fn budget(active_conn: u64, max_conn: u64) -> nat {
        if active_conn == 0 {
            max_conn as nat
        } else {
            active_conn as nat
        }
    }

    /// The state that a controller starts in.
    pub open spec fn initial(active_conn: u64, thread_count: u64, max_conn: u64) -> Controller {
        let auto = active_conn == 0;
        let total = Self::budget(active_conn, max_conn);
        Controller {
            ready: !auto,
            gates: Seq::new(
                thread_count as nat,
                |i: int|
                    Gate {
                        capacity: share(total, thread_count as nat, i as nat),
                        active: 0,
                        target: if auto {
                            0
                        } else {
                            share(total, thread_count as nat, i as nat)
                        },
                    },
            ),
            last_count: 0,
            last_rate: Rate { ops: 0, nanos: 1 },
            cursor: 0,
        }
    }

    /// As `new`, with the budget of a run that finds its own given by the
    /// caller.
    pub fn with_max_conn(active_conn: u64, thread_count: u64, max_conn: u64) -> (controller:
        AutoConnection)
        requires
            0 < thread_count <= usize::MAX,
        ensures
            controller.wf(),
            controller@ == Self::initial(active_conn, thread_count, max_conn),
            controller@.capacity() == Self::budget(active_conn, max_conn),
            controller@.active() == 0,
            controller@.target() == active_conn,
    {
        proof {
            lemma_initial(active_conn, thread_count, max_conn);
        }
        let auto = active_conn == 0;
        let total: u64 = if auto {
            max_conn
        } else {
            active_conn
        };
        let mut limiters: Vec<ConnLimiter> = Vec::new();
        let mut total_connection: u64 = total;
        let mut left_count: u64 = thread_count;
        let ghost quotient = total as nat / thread_count as nat;
        let ghost rest = total as nat % thread_count as nat;
        let ghost want = Self::initial(active_conn, thread_count, max_conn).gates;
        proof {
            assert(total == quotient * thread_count + rest) by (nonlinear_arith)
                requires
                    quotient == total as nat / thread_count as nat,
                    rest == total as nat % thread_count as nat,
                    thread_count > 0,
            ;
        }
        while left_count > 0
            invariant
                0 < thread_count <= usize::MAX,
                left_count <= thread_count,
                limiters@.len() == thread_count - left_count,
                quotient == total as nat / thread_count as nat,
                rest == total as nat % thread_count as nat,
                rest < thread_count,
                want == Self::initial(active_conn, thread_count, max_conn).gates,
                auto == (active_conn == 0),
                total == if auto {
                    max_conn
                } else {
                    active_conn
                },
                total_connection == quotient * left_count + if limiters@.len() < rest {
                    rest - limiters@.len()
                } else {
                    0
                },
                forall|j: int| 0 <= j < limiters@.len() ==> (#[trigger] limiters@[j])@ == want[j],
                capacity_upto(gates_of(limiters@), limiters@.len() as int) + total_connection
                    == total,
            decreases left_count,
        {
            let ghost done = limiters@.len();
            let ghost extra: nat = if done < rest {
                (rest - done) as nat
            } else {
                0
            };
            proof {
                lemma_fundamental_div_mod_converse(
                    total_connection as int,
                    left_count as int,
                    quotient as int,
                    extra as int,
                );
                assert(quotient <= quotient * left_count) by (nonlinear_arith)
                    requires
                        left_count >= 1,
                ;
            }
            let my_conn: u64 = total_connection / left_count + if total_connection % left_count
                != 0 {
                1u64
            } else {
                0u64
            };
            assert(my_conn == share(total as nat, thread_count as nat, done));
            let target_conn: u64 = if auto {
                0
            } else {
                my_conn
            };
            proof {
                assert(quotient * left_count == quotient * (left_count - 1) + quotient)
                    by (nonlinear_arith);
            }
            let ghost before = limiters@;
            limiters.push(ConnLimiter::new(my_conn, target_conn));
            total_connection = total_connection - my_conn;
            left_count = left_count - 1;
            proof {
                assert(limiters@[done as int]@ == want[done as int]);
                lemma_prefix_capacity(before, limiters@, done as int);
            }
        }
        let controller = AutoConnection {
            ready: !auto,
            limiters,
            last_cnt: 0,
            last_qps: Rate { ops: 0, nanos: 1 },
            instant: instant_now(),
            inx: 0,
        };
        proof {
            assert(controller@.gates =~= want);
            assert forall|i: int| 0 <= i < want.len() implies (#[trigger] want[i]).valid() by {}
        }
        controller
    }

    /// Whether the ramp is over.
    pub fn ready(&self) -> (ready: bool)
        ensures
            ready == self@.ready,
    {
        self.ready
    }

    /// Number of shards.
    pub fn shard_count(&self) -> (count: usize)
        ensures
            count == self@.gates.len(),
    {
        self.limiters.len()
    }

    /// The limiter of one shard.
    pub fn limiter(&self, shard: usize) -> (limiter: &ConnLimiter)
        requires
            shard < self@.gates.len(),
        ensures
            limiter@ == self@.gates[shard as int],
    {
        &self.limiters[shard]
    }

    /// Operations counted when the last sample was taken.
    pub fn last_cnt(&self) -> (count: u64)
        ensures
            count == self@.last_count,
    {
        self.last_cnt
    }

    /// Connections admitted over all shards.
    pub fn active_conn(&self) -> (active: u64)
        requires
            self.wf(),
        ensures
            active == self@.active(),
    {
        let mut sum: u64 = 0;
        let mut i: usize = 0;
        let ghost gates = gates_of(self.limiters@);
        while i < self.limiters.len()
            invariant
                i <= self.limiters@.len(),
                self.wf(),
                gates == gates_of(self.limiters@),
                sum == active_upto(gates, i as int),
            decreases self.limiters@.len() - i,
        {
            proof {
                lemma_sums_ordered(gates, i as int + 1);
                lemma_capacity_upto_monotonic(gates, i as int + 1, gates.len() as int);
            }
            sum = sum + self.limiters[i].get_active_conn();
            i += 1;
        }
        sum
    }

    /// Sum of the ceilings of all shards.
    pub fn target_conn(&self) -> (target: u64)
        requires
            self.wf(),
        ensures
            target == self@.target(),
    {
        let mut sum: u64 = 0;
        let mut i: usize = 0;
        let ghost gates = gates_of(self.limiters@);
        while i < self.limiters.len()
            invariant
                i <= self.limiters@.len(),
                self.wf(),
                gates == gates_of(self.limiters@),
                sum == target_upto(gates, i as int),
            decreases self.limiters@.len() - i,
        {
            proof {
                lemma_sums_ordered(gates, i as int + 1);
                lemma_capacity_upto_monotonic(gates, i as int + 1, gates.len() as int);
            }
            sum = sum + self.limiters[i].get_target_conn();
            i += 1;
        }
        sum
    }

    /// Claims a slot in `shard` for a new connection, if its
    /// ceiling leaves one.
    pub fn try_new_conn(&mut self, shard: usize) -> (admitted: bool)
        requires
            old(self).wf(),
            shard < old(self)@.gates.len(),
        ensures
            final(self).wf(),
            admitted == (old(self)@.gates[shard as int].active < old(self)@.gates[shard
                as int].target),
            final(self)@ == old(self)@.admitted(shard as int),
            final(self).sample_start() == old(self).sample_start(),
    {
        let ghost before = gates_of(self.limiters@);
        assert(before[shard as int].valid());
        let admitted = self.limiters[shard].try_new_conn();
        proof {
            let after = gates_of(self.limiters@);
            assert(after =~= before.update(shard as int, before[shard as int].admitted()));
            lemma_update_capacity(before, shard as int, before[shard as int].admitted(), before.len() as int);
        }
        admitted
    }

    /// Takes a sample of the throughput from the number of operations that
    /// `h` has counted and the time since the sample began, and acts on it as
    /// `adjust_at` does. A new sample begins only when connections were
    /// asked for: until then the next call measures from the same moment.
    pub fn adjust(&mut self, h: &Histogram)
        requires
            old(self).wf(),
            h.wf(),
            total_of(h@) >= old(self)@.last_count,
        ensures
            final(self).wf(),
            exists|elapsed_nanos: u64|
                {
                    &&& final(self)@ == #[trigger] old(self)@.adjusted(
                        total_of(h@) as u64,
                        elapsed_nanos,
                    )
                    &&& old(self)@.verdict(total_of(h@) as u64, elapsed_nanos) is Ramp
                        || final(self).sample_start() == old(self).sample_start()
                },
    {
        proof {
            h.lemma_wf();
        }
        let elapsed = elapsed_nanos(&self.instant);
        let restarted = self.adjust_at(h.cnt(), elapsed);
        if restarted {
            self.instant = instant_now();
        }
        assert(self@ == old(self)@.adjusted(total_of(h@) as u64, elapsed) && (old(self)@.verdict(
            total_of(h@) as u64,
            elapsed,
        ) is Ramp || self.sample_start() == old(self).sample_start()));
    }

    /// Acts on a sample of `cnt` operations counted, taken `elapsed_nanos`
    /// after the last one. Nothing happens once the ramp is over, within
    /// half a second of the last sample, or while throughput has neither
    /// doubled nor three seconds have passed. Else the first sample, and
    /// every one after a sample without throughput, asks for one connection;
    /// one whose throughput is more than 1.3 times the last asks for as many
    /// connections as are active; any other ends the ramp. The requests go
    /// to the gates in turn. Returns whether connections were asked for,
    /// which is when the next sample starts.
    pub fn adjust_at(&mut self, cnt: u64, elapsed_nanos: u64) -> (restarted: bool)
        requires
            old(self).wf(),
            cnt >= old(self)@.last_count,
        ensures
            final(self).wf(),
            final(self)@ == old(self)@.adjusted(cnt, elapsed_nanos),
            restarted == (old(self)@.verdict(cnt, elapsed_nanos) is Ramp),
            final(self).sample_start() == old(self).sample_start(),
    {
        proof {
            lemma_adjusted_valid(self@, cnt, elapsed_nanos);
        }
        if self.ready {
            return false;
        }
        if elapsed_nanos < MIN_SAMPLE_NANOS {
            return false;
        }
        let qps = Rate { ops: cnt - self.last_cnt, nanos: elapsed_nanos };
        if !(qps.reaches(&self.last_qps, SURGE_NUMER, SURGE_DENOM) || elapsed_nanos
            >= FORCE_SAMPLE_NANOS) {
            return false;
        }
        let need_add_conn: u64 = if self.last_qps.ops == 0 {
            1
        } else if qps.surpasses(&self.last_qps, GROWTH_NUMER, GROWTH_DENOM) {
            self.active_conn()
        } else {
            self.ready = true;
            return false;
        };
        let ghost gates = gates_of(self.limiters@);
        let ghost cursor = self.inx as nat;
        let mut done: u64 = 0;
        proof {
            vstd::arithmetic::div_mod::lemma_small_mod(cursor, gates.len());
        }
        while done < need_add_conn
            invariant
                done <= need_add_conn,
                self.limiters.len() == gates.len(),
                gates.len() > 0,
                forall|i: int| 0 <= i < gates.len() ==> (#[trigger] gates[i]).valid(),
                gates_of(self.limiters@) == raise_round_robin(gates, cursor, done as nat),
                self.inx == (cursor + done) as int % gates.len() as int,
                self.inx < gates.len(),
                self.ready == old(self).ready,
                self.last_cnt == old(self).last_cnt,
                self.last_qps == old(self).last_qps,
                self.instant == old(self).instant,
            decreases need_add_conn - done,
        {
            proof {
                lemma_round_robin(gates, cursor, done as nat);
            }
            let ghost before = self.limiters@;
            let at = self.inx;
            assert(before[at as int]@ == gates_of(before)[at as int]);
            self.limiters[at].add_conn();
            proof {
                assert(gates_of(self.limiters@) =~= raise_at(gates_of(before), at as int));
                lemma_next_cursor(cursor, done as nat, gates.len());
            }
            self.inx = (at + 1) % self.limiters.len();
            done = done + 1;
        }
        self.last_qps = qps;
        self.last_cnt = cnt;
        true
    }
}

/// Among valid gates the active counts add up to no more than the ceilings,
/// and these to no more than the capacities.
pub proof fn lemma_sums_ordered(gates: Seq<Gate>, n: int)
    requires
        n <= gates.len(),
        forall|i: int| 0 <= i < gates.len() ==> (#[trigger] gates[i]).valid(),
    ensures
        active_upto(gates, n) <= target_upto(gates, n) <= capacity_upto(gates, n),
    decreases n,
{
    if n > 0 {
        lemma_sums_ordered(gates, n - 1);
        assert(gates[n - 1].valid());
    }
}

proof fn lemma_capacity_upto_monotonic(gates: Seq<Gate>, i: int, j: int)
    requires
        i <= j,
    ensures
        capacity_upto(gates, i) <= capacity_upto(gates, j),
    decreases j - i,
{
    if i < j {
        lemma_capacity_upto_monotonic(gates, i, j - 1);
    }
}

proof fn lemma_same_prefix_capacity(a: Seq<Gate>, b: Seq<Gate>, n: int)
    requires
        n <= a.len(),
        n <= b.len(),
        forall|j: int| 0 <= j < n ==> a[j] == b[j],
    ensures
        capacity_upto(a, n) == capacity_upto(b, n),
    decreases n,
{
    if n > 0 {
        lemma_same_prefix_capacity(a, b, n - 1);
    }
}

proof fn lemma_prefix_capacity(before: Seq<ConnLimiter>, after: Seq<ConnLimiter>, n: int)
    requires
        0 <= n == before.len(),
        after.len() == n + 1,
        forall|j: int| 0 <= j < n ==> before[j] == after[j],
    ensures
        capacity_upto(gates_of(after), n + 1) == capacity_upto(gates_of(before), n) + after[n]@.capacity,
{
    lemma_same_prefix_capacity(gates_of(before), gates_of(after), n);
}

proof fn lemma_update_capacity(gates: Seq<Gate>, index: int, gate: Gate, n: int)
    requires
        0 <= index < gates.len(),
        n <= gates.len(),
        gate.capacity == gates[index].capacity,
    ensures
        capacity_upto(gates.update(index, gate), n) == capacity_upto(gates, n),
    decreases n,
{
    if n > 0 {
        lemma_update_capacity(gates, index, gate, n - 1);
    }
}

proof fn lemma_next_cursor(cursor: nat, done: nat, len: nat)
    requires
        len > 0,
    ensures
        (((cursor + done) as int % len as int) + 1) % len as int == (cursor + done + 1) as int % len as int,
{
    vstd::arithmetic::div_mod::lemma_add_mod_noop((cursor + done) as int, 1, len as int);
    vstd::arithmetic::div_mod::lemma_mod_twice((cursor + done) as int, len as int);
    if len == 1 {
    } else {
        vstd::arithmetic::div_mod::lemma_small_mod(1, len);
    }
}

/// Requests dealt out in turn raise each ceiling by the number of requests
/// that go to its gate, as far as the capacity allows; nothing else changes.
pub proof fn lemma_round_robin(gates: Seq<Gate>, cursor: nat, n: nat)
    requires
        gates.len() > 0,
        forall|i: int| 0 <= i < gates.len() ==> (#[trigger] gates[i]).valid(),
    ensures
        raise_round_robin(gates, cursor, n).len() == gates.len(),
        forall|i: int|
            0 <= i < gates.len() ==> #[trigger] raise_round_robin(gates, cursor, n)[i]
                == raised_by(gates[i], visits(gates.len(), cursor, n, i as nat)),
        forall|i: int|
            0 <= i < gates.len() ==> (#[trigger] raise_round_robin(gates, cursor, n)[i]).valid(),
    decreases n,
{
    if n > 0 {
        lemma_round_robin(gates, cursor, (n - 1) as nat);
        let before = raise_round_robin(gates, cursor, (n - 1) as nat);
        let at = (cursor + n - 1) % gates.len() as int;
        assert(0 <= at < gates.len());
        let after = raise_round_robin(gates, cursor, n);
        assert forall|i: int| 0 <= i < gates.len() implies #[trigger] after[i] == raised_by(
            gates[i],
            visits(gates.len(), cursor, n, i as nat),
        ) && after[i].valid() by {
            assert(gates[i].valid());
            assert(before[i] == raised_by(
                gates[i],
                visits(gates.len(), cursor, (n - 1) as nat, i as nat),
            ));
        }
    } else {
        assert forall|i: int| 0 <= i < gates.len() implies #[trigger] gates[i] == raised_by(
            gates[i],
            0,
        ) by {
            assert(gates[i].valid());
        }
    }
}

proof fn lemma_raise_at_sums(gates: Seq<Gate>, index: int, n: int)
    requires
        0 <= index < gates.len(),
        n <= gates.len(),
    ensures
        capacity_upto(raise_at(gates, index), n) == capacity_upto(gates, n),
        active_upto(raise_at(gates, index), n) == active_upto(gates, n),
        target_upto(gates, n) <= target_upto(raise_at(gates, index), n) <= target_upto(gates, n)
            + 1,
        index < n && gates[index].target < gates[index].capacity ==> target_upto(
            raise_at(gates, index),
            n,
        ) == target_upto(gates, n) + 1,
        index >= n ==> target_upto(raise_at(gates, index), n) == target_upto(gates, n),
    decreases n,
{
    if n > 0 {
        lemma_raise_at_sums(gates, index, n - 1);
    }
}

/// `n` requests add no more than `n` to the sum of the ceilings, and where
/// every gate has room for the requests that go to it, they add exactly `n`.
/// Capacities and active counts stay as they are.
pub proof fn lemma_round_robin_sums(gates: Seq<Gate>, cursor: nat, n: nat)
    requires
        gates.len() > 0,
        forall|i: int| 0 <= i < gates.len() ==> (#[trigger] gates[i]).valid(),
    ensures
        capacity_upto(raise_round_robin(gates, cursor, n), gates.len() as int) == capacity_upto(
            gates,
            gates.len() as int,
        ),
        active_upto(raise_round_robin(gates, cursor, n), gates.len() as int) == active_upto(
            gates,
            gates.len() as int,
        ),
        target_upto(gates, gates.len() as int) <= target_upto(
            raise_round_robin(gates, cursor, n),
            gates.len() as int,
        ) <= target_upto(gates, gates.len() as int) + n,
        (forall|i: int|
            0 <= i < gates.len() ==> (#[trigger] gates[i]).target + visits(
                gates.len(),
                cursor,
                n,
                i as nat,
            ) <= gates[i].capacity) ==> target_upto(
            raise_round_robin(gates, cursor, n),
            gates.len() as int,
        ) == target_upto(gates, gates.len() as int) + n,
    decreases n,
{
    if n > 0 {
        let len = gates.len();
        let m = (n - 1) as nat;
        lemma_round_robin_sums(gates, cursor, m);
        lemma_round_robin(gates, cursor, m);
        let before = raise_round_robin(gates, cursor, m);
        let at = (cursor + n - 1) % len as int;
        lemma_raise_at_sums(before, at, len as int);
        if forall|i: int|
            0 <= i < len ==> (#[trigger] gates[i]).target + visits(len, cursor, n, i as nat)
                <= gates[i].capacity {
            assert forall|i: int| 0 <= i < len implies (#[trigger] gates[i]).target + visits(
                len,
                cursor,
                m,
                i as nat,
            ) <= gates[i].capacity by {
                assert(gates[i].target + visits(len, cursor, n, i as nat) <= gates[i].capacity);
            }
            assert(gates[at].target + visits(len, cursor, n, at as nat) <= gates[at].capacity);
            assert(before[at] == raised_by(gates[at], visits(len, cursor, m, at as nat)));
            assert(before[at].target < before[at].capacity);
        }
    }
}

/// A sample leaves a valid controller valid: capacities and active counts
/// stay, no ceiling falls, and the sum of the ceilings grows by no more than
/// the verdict asks for.
pub proof fn lemma_adjusted_valid(c: Controller, count: u64, elapsed_nanos: u64)
    requires
        c.valid(),
        count >= c.last_count,
    ensures
        c.adjusted(count, elapsed_nanos).valid(),
        c.adjusted(count, elapsed_nanos).gates.len() == c.gates.len(),
        c.adjusted(count, elapsed_nanos).capacity() == c.capacity(),
        c.adjusted(count, elapsed_nanos).active() == c.active(),
        c.adjusted(count, elapsed_nanos).target() >= c.target(),
        count >= c.adjusted(count, elapsed_nanos).last_count,
        c.verdict(count, elapsed_nanos) matches Verdict::Ramp(n) ==> c.adjusted(
            count,
            elapsed_nanos,
        ).target() <= c.target() + n,
{
    match c.verdict(count, elapsed_nanos) {
        Verdict::Ramp(n) => {
            lemma_round_robin(c.gates, c.cursor, n);
            lemma_round_robin_sums(c.gates, c.cursor, n);
        },
        _ => {},
    }
}

proof fn lemma_initial_sums(active_conn: u64, thread_count: u64, max_conn: u64, n: int)
    requires
        thread_count > 0,
        0 <= n <= thread_count,
    ensures
        ({
            let gates = AutoConnection::initial(active_conn, thread_count, max_conn).gates;
            let total = AutoConnection::budget(active_conn, max_conn);
            let more = if n < total % (thread_count as nat) {
                n
            } else {
                (total % (thread_count as nat)) as int
            };
            &&& capacity_upto(gates, n) == (total / (thread_count as nat)) * n + more
            &&& active_upto(gates, n) == 0
            &&& target_upto(gates, n) == if active_conn == 0 {
                0
            } else {
                capacity_upto(gates, n) as int
            }
        }),
    decreases n,
{
    if n > 0 {
        lemma_initial_sums(active_conn, thread_count, max_conn, n - 1);
        let total = AutoConnection::budget(active_conn, max_conn);
        let q = (total / (thread_count as nat)) as int;
        assert(q * n == q * (n - 1) + q) by (nonlinear_arith);
    } else {
        let total = AutoConnection::budget(active_conn, max_conn);
        assert((total / (thread_count as nat)) * 0 == 0) by (nonlinear_arith);
    }
}

/// The controller at its start. The capacities of the shards add up to the
/// budget and no connection is active. With a number of connections asked
/// for, the ramp is over from the start and every ceiling stands at its
/// capacity, so that the ceilings add up to that number; with none asked
/// for, the ramp is to come and every ceiling stands at zero.
pub proof fn lemma_initial(active_conn: u64, thread_count: u64, max_conn: u64)
    requires
        thread_count > 0,
    ensures
        ({
            let c = AutoConnection::initial(active_conn, thread_count, max_conn);
            &&& c.valid()
            &&& c.ready == (active_conn > 0)
            &&& c.gates.len() == thread_count
            &&& c.capacity() == AutoConnection::budget(active_conn, max_conn)
            &&& c.active() == 0
            &&& c.target() == active_conn
            &&& forall|i: int|
                0 <= i < thread_count ==> (#[trigger] c.gates[i]).active == 0 && c.gates[i].target
                    == if active_conn > 0 {
                    c.gates[i].capacity
                } else {
                    0
                }
        }),
{
    lemma_initial_sums(active_conn, thread_count, max_conn, thread_count as int);
    let total = AutoConnection::budget(active_conn, max_conn);
    let shards = thread_count as nat;
    assert(total == (total / shards) * shards + total % shards) by (nonlinear_arith)
        requires
            shards > 0,
    ;
    let c = AutoConnection::initial(active_conn, thread_count, max_conn);
    assert forall|i: int| 0 <= i < c.gates.len() implies (#[trigger] c.gates[i]).valid() by {}
}

/// Once the ramp is over it stays over: a controller that is ready is left
/// as it is by every sample.
pub proof fn lemma_ready_is_terminal(c: Controller, samples: Seq<(u64, u64)>)
    requires
        c.ready,
    ensures
        c.after(samples) == c,
    decreases samples.len(),
{
    if samples.len() > 0 {
        lemma_ready_is_terminal(c, samples.drop_last());
    }
}

/// A controller that was ready after some of the samples is ready after all
/// of them, and the later samples have changed nothing.
pub proof fn lemma_never_ramps_again(c: Controller, samples: Seq<(u64, u64)>, k: int)
    requires
        0 <= k <= samples.len(),
        c.after(samples.take(k)).ready,
    ensures
        c.after(samples) == c.after(samples.take(k)),
    decreases samples.len() - k,
{
    if k < samples.len() {
        assert(samples.drop_last().take(k) =~= samples.take(k));
        lemma_never_ramps_again(c, samples.drop_last(), k);
    } else {
        assert(samples.take(k) =~= samples);
    }
}

/// A sample that is judged while throughput has grown by more than the
/// growth factor asks for as many new connections as are active; where the
/// gates have room for them in turn, the sum of the ceilings grows by just
/// that number.
pub proof fn lemma_ramp_doubles(c: Controller, count: u64, elapsed_nanos: u64)
    requires
        c.valid(),
        count >= c.last_count,
        !c.ready,
        elapsed_nanos >= MIN_SAMPLE_NANOS,
        !c.last_rate.is_zero(),
        c.rate(count, elapsed_nanos).at_least(c.last_rate, SURGE_NUMER as int, SURGE_DENOM as int)
            || elapsed_nanos >= FORCE_SAMPLE_NANOS,
        c.rate(count, elapsed_nanos).exceeds(
            c.last_rate,
            GROWTH_NUMER as int,
            GROWTH_DENOM as int,
        ),
        forall|i: int|
            0 <= i < c.gates.len() ==> (#[trigger] c.gates[i]).target + visits(
                c.gates.len(),
                c.cursor,
                c.active(),
                i as nat,
            ) <= c.gates[i].capacity,
    ensures
        c.verdict(count, elapsed_nanos) == Verdict::Ramp(c.active()),
        !c.adjusted(count, elapsed_nanos).ready,
        c.adjusted(count, elapsed_nanos).target() == c.target() + c.active(),
{
    lemma_round_robin(c.gates, c.cursor, c.active());
    lemma_round_robin_sums(c.gates, c.cursor, c.active());
}

/// A sample that is judged while throughput, once measured above zero, has
/// not grown by more than the growth factor ends the ramp and changes
/// nothing else.
pub proof fn lemma_plateau_settles(c: Controller, count: u64, elapsed_nanos: u64)
    requires
        count >= c.last_count,
        !c.ready,
        elapsed_nanos >= MIN_SAMPLE_NANOS,
        !c.last_rate.is_zero(),
        c.rate(count, elapsed_nanos).at_least(c.last_rate, SURGE_NUMER as int, SURGE_DENOM as int)
            || elapsed_nanos >= FORCE_SAMPLE_NANOS,
        !c.rate(count, elapsed_nanos).exceeds(
            c.last_rate,
            GROWTH_NUMER as int,
            GROWTH_DENOM as int,
        ),
    ensures
        c.adjusted(count, elapsed_nanos) == (Controller { ready: true, ..c }),
{
}

} // verus!
