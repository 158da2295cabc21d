//! One benchmark run: what its workers and the thread that watches them
//! decide. Who drives the run performs what is decided: it waits, sends the
//! commands, and measures the time.

use crate::auto_connection::AutoConnection;
use crate::auto_connection::Controller;
use crate::auto_connection::MAX_CONN;
use crate::command::text::strings_of;
use crate::command::text::words;
use crate::command::text_of;
use crate::command::Command;
use crate::command::CommandModel;
use crate::histogram::percentile_of;
use crate::histogram::avg_of;
use crate::histogram::recorded_n;
use crate::histogram::total_of;
use crate::shared_context::RunState;
use crate::shared_context::SharedContext;
use std::time::Instant;
use vstd::prelude::*;

verus! {

/// What a run is asked to do.
#[derive(Debug)]
pub struct Case {
    pub command: Command,
    /// Connections of the run; 0 lets the run find the number itself.
    pub connections: u64,
    /// Operations of the run; 0 is no bound.
    pub count: u64,
    /// Seconds of measured time; 0 is no bound.
    pub seconds: u64,
    /// Commands sent in one batch.
    pub pipeline: u64,
}

/// What becomes of a connection that asks for admission.
#[derive(Debug, Clone, Copy, PartialEq, Eq, Structural)]
pub enum Admission {
    /// It has a slot and starts to work.
    Admitted,
    /// It waits for the ceiling of its shard to rise, or for the run to stop.
    Wait,
    /// The run has stopped: it ends without having worked.
    Stopped,
}

/// What a run has measured, in whole numbers.
#[derive(Debug, Clone, Copy, PartialEq, Eq, Structural)]
pub struct Summary {
    /// Operations counted since the measured time began.
    pub operations: u64,
    /// The mean latency in microseconds.
    pub avg_latency_us: u64,
    /// The lowest latency in microseconds.
    pub min_latency_us: u64,
    /// The latency in microseconds below which half of the operations lie.
    pub p50_latency_us: u64,
    /// The latency in microseconds below which 9 of 10 operations lie.
    pub p90_latency_us: u64,
    /// The latency in microseconds below which 99 of 100 operations lie.
    pub p99_latency_us: u64,
    /// The highest latency in microseconds.
    pub max_latency_us: u64,
    /// Connections admitted.
    pub connections: u64,
}

/// The state of a run.
pub struct BenchModel {
    pub controller: Controller,
    pub run: RunState,
    pub command: CommandModel,
    /// Commands sent in one batch.
    pub pipeline: nat,
    /// Operations counted before the measured time began.
    pub overhead: nat,
}

/// The template after `n` commands were generated from it.
pub open spec fn advanced_by(command: CommandModel, n: nat) -> CommandModel
    decreases n,
{
    if n == 0 {
        command
    } else {
        advanced_by(command, (n - 1) as nat).advanced()
    }
}

/// Whether `args` can be the arguments of a command generated from `command`.
pub open spec fn generated_by(command: CommandModel, args: Seq<Seq<char>>) -> bool {
    exists|outs: Seq<Seq<Seq<char>>>| command.generates(outs) && args == words(#[trigger] text_of(outs))
}

/// How many more samples the counts have room for, up to `count`.
pub open spec fn room_for(counts: Seq<u64>, count: u64) -> nat {
    if total_of(counts) + count <= u64::MAX {
        count as nat
    } else {
        (u64::MAX - total_of(counts)) as nat
    }
}

impl BenchModel {
    pub open spec fn valid(self) -> bool {
        &&& self.controller.valid()
        &&& self.run.valid()
        &&& self.command.valid()
        &&& self.pipeline <= u64::MAX
        &&& self.overhead <= total_of(self.run.counts)
        &&& self.controller.last_count <= total_of(self.run.counts)
        &&& self.controller.ready ==> self.run.timer_armed
    }

    /// What a connection of `shard` is told that asks for admission.
    pub open spec fn admission(self, shard: int) -> Admission {
        if self.run.stopped {
            Admission::Stopped
        } else if self.controller.gates[shard].active < self.controller.gates[shard].target {
            Admission::Admitted
        } else {
            Admission::Wait
        }
    }

    /// The run after that connection asked.
    pub open spec fn admitted(self, shard: int) -> BenchModel {
        if self.run.stopped {
            self
        } else {
            BenchModel { controller: self.controller.admitted(shard), ..self }
        }
    }

    /// The run after a worker was granted a batch of `granted` commands: the
    /// request is booked, a worker that gets nothing stops the run, and the
    /// template has generated the batch.
    pub open spec fn batched(self, granted: nat) -> BenchModel {
        let run = self.run.fetched(self.pipeline as u64);
        BenchModel {
            run: if granted == 0 {
                run.halted()
            } else {
                run
            },
            command: advanced_by(self.command, granted),
            ..self
        }
    }

    /// The run after the latency of a batch of `count` operations was recorded.
    pub open spec fn recorded(self, count: u64, latency_us: u64) -> BenchModel {
        BenchModel {
            run: RunState {
                counts: recorded_n(
                    self.run.counts,
                    latency_us as int,
                    room_for(self.run.counts, count),
                ),
                ..self.run
            },
            ..self
        }
    }

    /// The run after the controller took a sample `elapsed_nanos` after the
    /// last one: when the sample ends the ramp, the measured time begins and
    /// what was counted before it is set aside.
    pub open spec fn adjusted(self, elapsed_nanos: u64) -> BenchModel {
        let count = total_of(self.run.counts) as u64;
        let controller = self.controller.adjusted(count, elapsed_nanos);
        if !self.controller.ready && controller.ready {
            BenchModel { controller, run: self.run.timer_started(), overhead: count as nat, ..self }
        } else {
            BenchModel { controller, ..self }
        }
    }

    /// Whether the controller has nothing to wait for: every slot that a
    /// ceiling allows is taken, or the run has stopped and no connection
    /// will take one.
    pub open spec fn settled(self) -> bool {
        self.run.stopped || self.controller.active() >= self.controller.target()
    }

    /// What the run has measured.
    pub open spec fn summary(self) -> Summary {
        Summary {
            operations: (total_of(self.run.counts) - self.overhead) as u64,
            avg_latency_us: avg_of(self.run.counts) as u64,
            min_latency_us: percentile_of(self.run.counts, 0, 1) as u64,
            p50_latency_us: percentile_of(self.run.counts, 1, 2) as u64,
            p90_latency_us: percentile_of(self.run.counts, 9, 10) as u64,
            p99_latency_us: percentile_of(self.run.counts, 99, 100) as u64,
            max_latency_us: percentile_of(self.run.counts, 1, 1) as u64,
            connections: self.controller.active() as u64,
        }
    }
}

/// The state that a run starts in: the controller and the context are new,
/// and a run with a fixed number of connections measures from the start.
/// `max_conn` is the budget of a run that is to find its connections itself.
pub open spec fn initial(case: Case, thread_count: u64, load: bool, max_conn: u64) -> BenchModel {
    let controller = AutoConnection::initial(case.connections, thread_count, max_conn);
    BenchModel {
        controller,
        run: RunState {
            is_loading: load,
            budget: crate::counter::Budget { consumed: 0, max: case.count as nat },
            timer_armed: controller.ready,
            max_seconds: case.seconds as nat,
            stopped: false,
            counts: crate::histogram::empty_counts(),
        },
        command: case.command@,
        pipeline: case.pipeline as nat,
        overhead: 0,
    }
}

pub struct Bench {
    auto_connection: AutoConnection,
    context: SharedContext,
    command: Command,
    pipeline: u64,
    overhead: u64,
}

impl View for Bench {
    type V = BenchModel;

    closed spec fn view(&self) -> BenchModel {
        BenchModel {
            controller: self.auto_connection@,
            run: self.context@,
            command: self.command@,
            pipeline: self.pipeline as nat,
            overhead: self.overhead as nat,
        }
    }
}

impl Bench {
    pub closed spec fn wf(&self) -> bool {
        &&& self@.valid()
        &&& self.auto_connection.wf()
        &&& self.context.wf()
    }

    /// The moment at which the sample that the controller is taking began.
    pub closed spec fn sample_start(&self) -> Instant {
        self.auto_connection.sample_start()
    }

    /// The moment at which the measured time began, if it has.
    pub closed spec fn started(&self) -> Option<Instant> {
        self.context.started()
    }

    /// The state of a well-formed run is valid.
    pub proof fn lemma_wf(&self)
        requires
            self.wf(),
        ensures
            self@.valid(),
    {
    }

    /// A run of `case` on `thread_count` shards. A run that loads data has
    /// a number of operations to perform. A run that is to find its
    /// connections itself gets no more than `MAX_CONN` of them.
    pub fn new(case: Case, thread_count: u64, load: bool) -> (bench: Bench)
        requires
            0 < thread_count <= usize::MAX,
            case.command@.valid(),
            load ==> case.count != 0,
        ensures
            bench.wf(),
            bench@ == initial(case, thread_count, load, MAX_CONN),
    {
        Self::with_max_conn(case, thread_count, load, MAX_CONN)
    }

    /// As `new`, with the budget of a run that finds its connections itself
    /// given by the caller.
    pub fn with_max_conn(case: Case, thread_count: u64, load: bool, max_conn: u64) -> (bench:
        Bench)
        requires
            0 < thread_count <= usize::MAX,
            case.command@.valid(),
            load ==> case.count != 0,
        ensures
            bench.wf(),
            bench@ == initial(case, thread_count, load, max_conn),
    {
        let auto_connection = AutoConnection::with_max_conn(
            case.connections,
            thread_count,
            max_conn,
        );
        let mut context = SharedContext::new(case.count, case.seconds, load);
        if auto_connection.ready() {
            context.start_timer();
        }
        proof {
            context.lemma_wf();
        }
        Bench { auto_connection, context, command: case.command, pipeline: case.pipeline, overhead: 0 }
    }

    /// Answers a connection of `shard` that asks for admission.
    pub fn request_admission(&mut self, shard: usize) -> (admission: Admission)
        requires
            old(self).wf(),
            shard < old(self)@.controller.gates.len(),
        ensures
            final(self).wf(),
            admission == old(self)@.admission(shard as int),
            final(self)@ == old(self)@.admitted(shard as int),
            final(self).sample_start() == old(self).sample_start(),
            final(self).started() == old(self).started(),
    {
        if self.context.is_stopped() {
            return Admission::Stopped;
        }
        if self.auto_connection.try_new_conn(shard) {
            Admission::Admitted
        } else {
            Admission::Wait
        }
    }

    /// Asks for the next batch of a worker and generates its commands, each
    /// by its arguments. A worker that gets an empty batch has stopped the
    /// run and ends. `zipf` is called, with the number of elements, for
    /// every key that is drawn by Zipf's law, and returns a rank.
    pub fn next_batch<F: Fn(u64) -> u64>(&mut self, zipf: &F) -> (batch: Vec<Vec<String>>)
        requires
            old(self).wf(),
            forall|n: u64| n > 0 ==> call_requires(*zipf, (n,)),
        ensures
            final(self).wf(),
            final(self)@ == old(self)@.batched(batch@.len()),
            final(self).sample_start() == old(self).sample_start(),
            final(self).started() == old(self).started(),
            exists|elapsed_nanos: u64|
                batch@.len() == #[trigger] old(self)@.run.grant(
                    old(self)@.pipeline as u64,
                    elapsed_nanos,
                ),
            forall|k: int|
                0 <= k < batch@.len() ==> generated_by(
                    advanced_by(old(self)@.command, k as nat),
                    strings_of(#[trigger] batch@[k]@),
                ),
    {
        let pipeline_cnt = self.context.fetch(self.pipeline);
        let ghost elapsed_nanos = choose|elapsed_nanos: u64|
            pipeline_cnt == #[trigger] old(self)@.run.grant(self.pipeline, elapsed_nanos);
        if pipeline_cnt == 0 {
            self.context.stop();
        }
        let mut batch: Vec<Vec<String>> = Vec::new();
        let mut done: u64 = 0;
        let ghost first = self.command@;
        while done < pipeline_cnt
            invariant
                done <= pipeline_cnt,
                batch@.len() == done,
                first == old(self).command@,
                first.valid(),
                self.command@ == advanced_by(first, done as nat),
                self.command@.valid(),
                self.auto_connection == old(self).auto_connection,
                self.pipeline == old(self).pipeline,
                self.overhead == old(self).overhead,
                self.context@ == old(self)@.batched(pipeline_cnt as nat).run,
                self.context.started() == old(self).context.started(),
                pipeline_cnt == old(self)@.run.grant(old(self).pipeline, elapsed_nanos),
                self.context.wf(),
                forall|n: u64| n > 0 ==> call_requires(*zipf, (n,)),
                forall|k: int|
                    0 <= k < done ==> generated_by(
                        advanced_by(first, k as nat),
                        strings_of(#[trigger] batch@[k]@),
                    ),
            decreases pipeline_cnt - done,
        {
            let args = self.command.gen_cmd(zipf);
            assert(generated_by(advanced_by(first, done as nat), strings_of(args@)));
            batch.push(args);
            done = done + 1;
        }
        batch
    }

    /// Records the latency of a batch of `count` operations, once for each
    /// of them, as far as the histogram can count.
    pub fn record_batch(&mut self, count: u64, latency_us: u64)
        requires
            old(self).wf(),
        ensures
            final(self).wf(),
            final(self)@ == old(self)@.recorded(count, latency_us),
            final(self).sample_start() == old(self).sample_start(),
            final(self).started() == old(self).started(),
    {
        proof {
            self.context.lemma_wf();
        }
        let mut done: u64 = 0;
        while done < count && self.context.histogram().cnt() < u64::MAX
            invariant
                done <= count,
                self.context.wf(),
                self.auto_connection == old(self).auto_connection,
                self.command == old(self).command,
                self.pipeline == old(self).pipeline,
                self.overhead == old(self).overhead,
                self.context.started() == old(self).context.started(),
                self.context@ == (RunState {
                    counts: recorded_n(old(self).context@.counts, latency_us as int, done as nat),
                    ..old(self).context@
                }),
                total_of(self.context@.counts) == total_of(old(self).context@.counts) + done,
            decreases count - done,
        {
            self.context.record(latency_us);
            done = done + 1;
        }
        proof {
            self.context.lemma_wf();
        }
    }

    /// Lets the controller take a sample, while the ramp goes on. When the
    /// sample ends the ramp, the measured time begins. A new sample begins
    /// only when connections were asked for, and a measured time that has
    /// begun is not begun again.
    pub fn adjust(&mut self)
        requires
            old(self).wf(),
        ensures
            final(self).wf(),
            old(self)@.run.timer_armed ==> final(self).started() == old(self).started(),
            exists|elapsed_nanos: u64|
                {
                    &&& final(self)@ == #[trigger] old(self)@.adjusted(elapsed_nanos)
                    &&& old(self)@.controller.verdict(
                        total_of(old(self)@.run.counts) as u64,
                        elapsed_nanos,
                    ) is Ramp || final(self).sample_start() == old(self).sample_start()
                },
    {
        if self.auto_connection.ready() {
            proof {
                assert(self@ == old(self)@.adjusted(0));
            }
            return;
        }
        proof {
            self.context.lemma_wf();
        }
        let ghost before = self.auto_connection@;
        let ghost count = total_of(self.context@.counts) as u64;
        self.auto_connection.adjust(self.context.histogram());
        let ghost elapsed_nanos = choose|elapsed_nanos: u64|
            self.auto_connection@ == #[trigger] before.adjusted(count, elapsed_nanos) && (
            before.verdict(count, elapsed_nanos) is Ramp || self.auto_connection.sample_start()
                == old(self).auto_connection.sample_start());
        proof {
            crate::auto_connection::lemma_adjusted_valid(before, count, elapsed_nanos);
        }
        if self.auto_connection.ready() {
            self.overhead = self.context.histogram().cnt();
            self.context.start_timer();
        }
        proof {
            self.context.lemma_wf();
            assert(self@ == old(self)@.adjusted(elapsed_nanos) && (old(self)@.controller.verdict(
                total_of(old(self)@.run.counts) as u64,
                elapsed_nanos,
            ) is Ramp || self.sample_start() == old(self).sample_start()));
        }
    }

    /// Whether the controller has nothing to wait for. After it has asked
    /// for connections, the controller goes on only once this holds.
    pub fn is_settled(&self) -> (settled: bool)
        requires
            self.wf(),
        ensures
            settled == self@.settled(),
    {
        self.context.is_stopped() || self.auto_connection.active_conn()
            >= self.auto_connection.target_conn()
    }

    /// Whether the ramp is over.
    pub fn is_ready(&self) -> (ready: bool)
        ensures
            ready == self@.controller.ready,
    {
        self.auto_connection.ready()
    }

    /// Whether the run was told to stop.
    pub fn is_stopped(&self) -> (stopped: bool)
        ensures
            stopped == self@.run.stopped,
    {
        self.context.is_stopped()
    }

    /// The controller of the run.
    pub fn auto_connection(&self) -> (controller: &AutoConnection)
        requires
            self.wf(),
        ensures
            controller.wf(),
            controller@ == self@.controller,
    {
        &self.auto_connection
    }

    /// The context of the run.
    pub fn context(&self) -> (context: &SharedContext)
        requires
            self.wf(),
        ensures
            context.wf(),
            context@ == self@.run,
    {
        &self.context
    }

    /// Nanoseconds of measured time that have passed, and 0 before it has
    /// begun: what the operations of the summary are divided by for the
    /// throughput.
    pub fn measured_nanos(&self) -> (nanos: u64)
        ensures
            !self@.run.timer_armed ==> nanos == 0,
    {
        self.context.measured_nanos()
    }

    /// What the run has measured so far.
    pub fn summary(&self) -> (summary: Summary)
        requires
            self.wf(),
        ensures
            summary == self@.summary(),
    {
        let histogram = self.context.histogram();
        Summary {
            operations: histogram.cnt() - self.overhead,
            avg_latency_us: histogram.avg(),
            min_latency_us: histogram.percentile(0, 1),
            p50_latency_us: histogram.percentile(1, 2),
            p90_latency_us: histogram.percentile(9, 10),
            p99_latency_us: histogram.percentile(99, 100),
            max_latency_us: histogram.percentile(1, 1),
            connections: self.auto_connection.active_conn(),
        }
    }
}

} // verus!
