//! The admission gate of one shard: how many connections work, how many may,
//! and how many the shard can ever have.

use vstd::prelude::*;

verus! {

/// The state of a gate.
pub struct Gate {
    /// The shard's share of the connection budget.
    pub capacity: nat,
    /// Connections that were admitted.
    pub active: nat,
    /// The ceiling under which connections are admitted at present.
    pub target: nat,
}

impl Gate {
    /// No more connections work than may, and no more may than the shard has.
    pub open spec fn valid(self) -> bool {
        self.active <= self.target <= self.capacity
    }

    /// A gate after one connection asked for admission: it gets a slot if
    /// one is free.
    pub open spec fn admitted(self) -> Gate {
        if self.active < self.target {
            Gate { active: self.active + 1, ..self }
        } else {
            self
        }
    }

    /// A gate after its ceiling was asked to rise by one: it rises unless
    /// it stands at the capacity.
    pub open spec fn raised(self) -> Gate {
        if self.target < self.capacity {
            Gate { target: self.target + 1, ..self }
        } else {
            self
        }
    }

    /// Whether every slot that the ceiling allows is taken.
    pub open spec fn settled(self) -> bool {
        self.active >= self.target
    }
}

/// What can happen to a gate.
pub enum GateOp {
    /// A connection asks for admission.
    Admit,
    /// The controller raises the ceiling.
    Raise,
}

/// A gate after `ops` happened to it in order.
pub open spec fn gate_after(gate: Gate, ops: Seq<GateOp>) -> Gate
    decreases ops.len(),
{
    if ops.len() == 0 {
        gate
    } else {
        let before = gate_after(gate, ops.drop_last());
        match ops.last() {
            GateOp::Admit => before.admitted(),
            GateOp::Raise => before.raised(),
        }
    }
}

/// Admission control for the connections of one shard.
#[derive(Debug)]
pub struct ConnLimiter {
    total_conn: u64,
    active_conn: u64,
    target_conn: u64,
}

impl View for ConnLimiter {
    type V = Gate;

    closed spec fn view(&self) -> Gate {
        Gate {
            capacity: self.total_conn as nat,
            active: self.active_conn as nat,
            target: self.target_conn as nat,
        }
    }
}

impl ConnLimiter {
    /// A gate with no connection admitted yet.
    pub fn new(total_conn: u64, target_conn: u64) -> (limiter: ConnLimiter)
        requires
            target_conn <= total_conn,
        ensures
            limiter@ == (Gate {
                capacity: total_conn as nat,
                active: 0,
                target: target_conn as nat,
            }),
            limiter@.valid(),
    {
        ConnLimiter { total_conn, active_conn: 0, target_conn }
    }

    /// Claims a slot for a new connection if the ceiling leaves one. A
    /// connection that gets none waits for the ceiling to rise and asks again.
    pub fn try_new_conn(&mut self) -> (admitted: bool)
        requires
            old(self)@.valid(),
        ensures
            admitted == (old(self)@.active < old(self)@.target),
            final(self)@ == old(self)@.admitted(),
            final(self)@.valid(),
    {
        if self.active_conn < self.target_conn {
            self.active_conn = self.active_conn + 1;
            true
        } else {
            false
        }
    }

    /// Raises the ceiling by one, unless it stands at the capacity. The
    /// controller then waits until every slot is taken again.
    pub fn add_conn(&mut self)
        requires
            old(self)@.valid(),
        ensures
            final(self)@ == old(self)@.raised(),
            final(self)@.valid(),
    {
        if self.target_conn >= self.total_conn {
            return;
        }
        self.target_conn = self.target_conn + 1;
    }

    /// Connections that were admitted.
    pub fn get_active_conn(&self) -> (active: u64)
        ensures
            active == self@.active,
    {
        self.active_conn
    }

    /// The ceiling under which connections are admitted at present.
    pub fn get_target_conn(&self) -> (target: u64)
        ensures
            target == self@.target,
    {
        self.target_conn
    }

    /// The capacity: the share of the shard in the connection budget.
    pub fn total_conn(&self) -> (total: u64)
        ensures
            total == self@.capacity,
    {
        self.total_conn
    }

    /// Whether every slot that the ceiling allows is taken.
    pub fn is_settled(&self) -> (settled: bool)
        ensures
            settled == self@.settled(),
    {
        self.active_conn >= self.target_conn
    }
}

/// Whatever the order in which connections ask and the ceiling rises, the
/// active count stays within the ceiling and the ceiling within the
/// capacity; neither ever falls, and the capacity stays as it is.
pub proof fn lemma_gate_stays_valid(gate: Gate, ops: Seq<GateOp>)
    requires
        gate.valid(),
    ensures
        gate_after(gate, ops).valid(),
        gate_after(gate, ops).capacity == gate.capacity,
        gate_after(gate, ops).active >= gate.active,
        gate_after(gate, ops).target >= gate.target,
    decreases ops.len(),
{
    if ops.len() > 0 {
        lemma_gate_stays_valid(gate, ops.drop_last());
    }
}

} // verus!
