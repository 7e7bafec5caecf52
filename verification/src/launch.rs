//! Launching applications: what may be queued, whether the user's service
//! manager takes a launch, and which children have to be waited for.

use crate::text::{
    chars_of, decimal, holds_char, insert_text, join_path, len_bytes, split,
};
use vstd::prelude::*;
use vstd::string::*;

verus! {

pub const MIN_LAUNCH_WORKERS: usize = 2;

pub const MAX_LAUNCH_WORKERS: usize = 32;

pub const QUEUED_REQUESTS_PER_WORKER: usize = 4;

pub const MIN_QUEUED_REQUESTS: usize = 64;

pub const MAX_QUEUED_REQUESTS: usize = 128;

pub const MAX_ARGV_ENTRIES: usize = 4096;

pub const MAX_ARGV_BYTES: usize = 262144;

pub const MAX_BATCH_REQUESTS: usize = 64;

pub const MAX_BATCH_ARGV_ENTRIES: usize = 32768;

pub const MAX_BATCH_ARGV_BYTES: usize = 4194304;

pub const MAX_QUEUED_ARGV_ENTRIES: usize = 32768;

pub const MAX_QUEUED_ARGV_BYTES: usize = 4194304;

pub const MAX_DIRECT_CHILDREN: usize = 512;

pub const MAX_ENVIRONMENT_NAMES: usize = 4096;

pub const MAX_ENVIRONMENT_NAME_BYTES: usize = 262144;

pub const REAPER_FALLBACK_TICK_MILLIS: u64 = 2000;

pub const USER_SERVICE_ACK_TIMEOUT_MILLIS: u64 = 2000;

pub const USER_SERVICE_PROBE_TIMEOUT_MILLIS: u64 = 500;

pub const USER_SERVICE_RESOLUTION_TIMEOUT_MILLIS: u64 = 1000;

pub const USER_SERVICE_RETRY_AFTER_MILLIS: u64 = 30000;

pub const HANDOFF_POLL_MILLIS: u64 = 5;

/// How an application was started.
#[derive(Debug, Clone, Copy, PartialEq, Eq, Structural)]
pub enum LaunchReceipt {
    UserService,
    Direct,
}

/// The claim on the outcome of a queued launch.
#[derive(Debug, Clone, Copy, PartialEq, Eq, Structural)]
pub struct LaunchTicket {
    pub id: u64,
}

/// Why an application was not started.
#[derive(Debug, PartialEq, Eq)]
pub enum LaunchError {
    EmptyArgv,
    ArgvTooLarge { max_entries: usize, max_bytes: usize },
    BatchTooLarge { max_requests: usize, max_entries: usize, max_bytes: usize },
    QueueFull { max_requests: usize, max_entries: usize, max_bytes: usize },
    WorkerUnavailable,
    WorkerStopped,
    DirectCapacity { limit: usize },
    ReaperUnavailable,
    Spawn { program: String, source: String },
    HandoffRejected { status: String },
    HandoffTimeout { millis: u64 },
    HandoffWait { source: String },
}

/// The error for an argument vector beyond its limits.
pub open spec fn argv_too_large() -> LaunchError {
    LaunchError::ArgvTooLarge { max_entries: MAX_ARGV_ENTRIES, max_bytes: MAX_ARGV_BYTES }
}

/// The error for a batch beyond its limits.
pub open spec fn batch_too_large() -> LaunchError {
    LaunchError::BatchTooLarge {
        max_requests: MAX_BATCH_REQUESTS,
        max_entries: MAX_BATCH_ARGV_ENTRIES,
        max_bytes: MAX_BATCH_ARGV_BYTES,
    }
}

impl LaunchError {
    /// The error in words.
    pub open spec fn text(self) -> Seq<char> {
        match self {
            LaunchError::EmptyArgv => "launch argument vector is empty or has an empty program"@,
            LaunchError::ArgvTooLarge { max_entries, max_bytes } =>
                "launch argument vector exceeds the limit of "@ + crate::text::decimal_text(
                    max_entries as nat,
                ) + " entries or "@ + crate::text::decimal_text(max_bytes as nat) + " bytes"@,
            LaunchError::BatchTooLarge { max_requests, max_entries, max_bytes } =>
                "launch batch exceeds the limit of "@ + crate::text::decimal_text(
                    max_requests as nat,
                ) + " requests, "@ + crate::text::decimal_text(max_entries as nat)
                    + " entries, or "@ + crate::text::decimal_text(max_bytes as nat) + " bytes"@,
            LaunchError::QueueFull { max_requests, max_entries, max_bytes } =>
                "detached launch queue cannot atomically reserve this batch (limits: "@
                    + crate::text::decimal_text(max_requests as nat) + " requests, "@
                    + crate::text::decimal_text(max_entries as nat) + " entries, "@
                    + crate::text::decimal_text(max_bytes as nat) + " bytes)"@,
            LaunchError::WorkerUnavailable => "detached launch worker is unavailable"@,
            LaunchError::WorkerStopped =>
                "detached launch worker stopped before reporting an outcome"@,
            LaunchError::DirectCapacity { limit } => "direct child limit reached ("@
                + crate::text::decimal_text(limit as nat) + ")"@,
            LaunchError::ReaperUnavailable => "direct child reaper is unavailable"@,
            LaunchError::Spawn { program, source } => "failed to start "@ + program@ + ": "@
                + source@,
            LaunchError::HandoffRejected { status } =>
                "transient service handoff exited with "@ + status@,
            LaunchError::HandoffTimeout { millis } =>
                "transient service handoff acknowledgement timed out after "@
                    + crate::text::decimal_text(millis as nat)
                    + " ms; the service may already have been accepted and was not retried"@,
            LaunchError::HandoffWait { source } => "transient service handoff failed: "@ + source@,
        }
    }

    /// The error in words.
    pub fn message(&self) -> (r: String)
        ensures
            r@ == self.text(),
    {
        match self {
            LaunchError::EmptyArgv =>
                "launch argument vector is empty or has an empty program".to_owned(),
            LaunchError::ArgvTooLarge { max_entries, max_bytes } => {
                let mut m = "launch argument vector exceeds the limit of ".to_owned();
                m.append(decimal(*max_entries as u128).as_str());
                m.append(" entries or ");
                m.append(decimal(*max_bytes as u128).as_str());
                m.append(" bytes");
                m
            },
            LaunchError::BatchTooLarge { max_requests, max_entries, max_bytes } => {
                let mut m = "launch batch exceeds the limit of ".to_owned();
                m.append(decimal(*max_requests as u128).as_str());
                m.append(" requests, ");
                m.append(decimal(*max_entries as u128).as_str());
                m.append(" entries, or ");
                m.append(decimal(*max_bytes as u128).as_str());
                m.append(" bytes");
                m
            },
            LaunchError::QueueFull { max_requests, max_entries, max_bytes } => {
                let mut m =
                    "detached launch queue cannot atomically reserve this batch (limits: ".to_owned();
                m.append(decimal(*max_requests as u128).as_str());
                m.append(" requests, ");
                m.append(decimal(*max_entries as u128).as_str());
                m.append(" entries, ");
                m.append(decimal(*max_bytes as u128).as_str());
                m.append(" bytes)");
                m
            },
            LaunchError::WorkerUnavailable => "detached launch worker is unavailable".to_owned(),
            LaunchError::WorkerStopped =>
                "detached launch worker stopped before reporting an outcome".to_owned(),
            LaunchError::DirectCapacity { limit } => {
                let mut m = "direct child limit reached (".to_owned();
                m.append(decimal(*limit as u128).as_str());
                m.append(")");
                m
            },
            LaunchError::ReaperUnavailable => "direct child reaper is unavailable".to_owned(),
            LaunchError::Spawn { program, source } => {
                let mut m = "failed to start ".to_owned();
                m.append(program.as_str());
                m.append(": ");
                m.append(source.as_str());
                m
            },
            LaunchError::HandoffRejected { status } => {
                let mut m = "transient service handoff exited with ".to_owned();
                m.append(status.as_str());
                m
            },
            LaunchError::HandoffTimeout { millis } => {
                let mut m = "transient service handoff acknowledgement timed out after ".to_owned();
                m.append(decimal(*millis as u128).as_str());
                m.append(" ms; the service may already have been accepted and was not retried");
                m
            },
            LaunchError::HandoffWait { source } => {
                let mut m = "transient service handoff failed: ".to_owned();
                m.append(source.as_str());
                m
            },
        }
    }
}

/// What a launch takes of the queue.
#[derive(Debug, Clone, Copy, PartialEq, Eq, Structural)]
pub struct ArgvCost {
    pub requests: usize,
    pub entries: usize,
    pub bytes: usize,
}

impl Default for ArgvCost {
    fn default() -> (r: Self)
        ensures
            r == (ArgvCost { requests: 0, entries: 0, bytes: 0 }),
    {
        ArgvCost { requests: 0, entries: 0, bytes: 0 }
    }
}

/// Two costs together, where they can be counted.
pub open spec fn cost_sum(a: ArgvCost, b: ArgvCost) -> Option<ArgvCost> {
    if a.requests + b.requests <= usize::MAX && a.entries + b.entries <= usize::MAX && a.bytes
        + b.bytes <= usize::MAX {
        Some(
            ArgvCost {
                requests: (a.requests + b.requests) as usize,
                entries: (a.entries + b.entries) as usize,
                bytes: (a.bytes + b.bytes) as usize,
            },
        )
    } else {
        None
    }
}

impl ArgvCost {
    /// Two costs together, where they can be counted.
    pub fn checked_add(self, other: Self) -> (r: Option<Self>)
        ensures
            r == cost_sum(self, other),
    {
        if other.requests > usize::MAX - self.requests || other.entries > usize::MAX - self.entries
            || other.bytes > usize::MAX - self.bytes {
            return None;
        }
        Some(
            ArgvCost {
                requests: self.requests + other.requests,
                entries: self.entries + other.entries,
                bytes: self.bytes + other.bytes,
            },
        )
    }
}

/// The bytes of all arguments.
pub open spec fn argv_bytes(argv: Seq<String>) -> nat
    decreases argv.len(),
{
    if argv.len() == 0 {
        0
    } else {
        argv_bytes(argv.drop_last()) + crate::text::byte_len(argv.last()@)
    }
}

/// The cost of an argument vector, or why it is refused.
pub open spec fn cost_of(argv: Seq<String>) -> Result<ArgvCost, LaunchError> {
    if argv.len() == 0 || argv[0]@.len() == 0 {
        Err(LaunchError::EmptyArgv)
    } else if argv.len() > MAX_ARGV_ENTRIES || argv_bytes(argv) > MAX_ARGV_BYTES {
        Err(argv_too_large())
    } else {
        Ok(
            ArgvCost {
                requests: 1,
                entries: argv.len() as usize,
                bytes: argv_bytes(argv) as usize,
            },
        )
    }
}

proof fn argv_bytes_grow(argv: Seq<String>, n: int)
    requires
        0 <= n <= argv.len(),
    ensures
        argv_bytes(argv.take(n)) <= argv_bytes(argv),
    decreases argv.len(),
{
    if n == argv.len() {
        assert(argv.take(n) =~= argv);
    } else {
        argv_bytes_grow(argv.drop_last(), n);
        assert(argv.drop_last().take(n) =~= argv.take(n));
    }
}

/// The cost of an argument vector. An empty one or an empty program comes
/// before any limit.
pub fn argv_cost(argv: &Vec<String>) -> (r: Result<ArgvCost, LaunchError>)
    ensures
        r == cost_of(argv@),
{
    if argv.len() == 0 || argv[0].as_str().is_empty() {
        return Err(LaunchError::EmptyArgv);
    }
    let refused = LaunchError::ArgvTooLarge {
        max_entries: MAX_ARGV_ENTRIES,
        max_bytes: MAX_ARGV_BYTES,
    };
    if argv.len() > MAX_ARGV_ENTRIES {
        return Err(refused);
    }
    let mut bytes: usize = 0;
    let mut i: usize = 0;
    while i < argv.len()
        invariant
            i <= argv.len() <= MAX_ARGV_ENTRIES,
            argv@.len() > 0,
            argv@[0]@.len() > 0,
            refused == argv_too_large(),
            bytes == argv_bytes(argv@.take(i as int)),
            bytes <= MAX_ARGV_BYTES,
        decreases argv.len() - i,
    {
        proof {
            assert(argv@.take(i + 1).drop_last() =~= argv@.take(i as int));
            argv_bytes_grow(argv@, i + 1);
        }
        let own: usize = len_bytes(argv[i].as_str());
        if own > MAX_ARGV_BYTES - bytes {
            return Err(refused);
        }
        bytes = bytes + own;
        i = i + 1;
    }
    assert(argv@.take(i as int) =~= argv@);
    Ok(ArgvCost { requests: 1, entries: argv.len(), bytes })
}

/// Whether an argument vector may be launched.
pub fn validate_argv(argv: &Vec<String>) -> (r: Result<(), LaunchError>)
    ensures
        match r {
            Ok(()) => cost_of(argv@) is Ok,
            Err(e) => cost_of(argv@) == Err::<ArgvCost, LaunchError>(e),
        },
{
    match argv_cost(argv) {
        Ok(_) => Ok(()),
        Err(e) => Err(e),
    }
}

/// The cost of the first `n` argument vectors, or the first reason to refuse
/// them.
pub open spec fn prefix_cost(batch: Seq<Vec<String>>, n: nat) -> Result<ArgvCost, LaunchError>
    decreases n,
{
    if n == 0 {
        Ok(ArgvCost { requests: 0, entries: 0, bytes: 0 })
    } else {
        match prefix_cost(batch, (n - 1) as nat) {
            Err(e) => Err(e),
            Ok(before) => match cost_of(batch[n - 1]@) {
                Err(e) => Err(e),
                Ok(own) => match cost_sum(before, own) {
                    Some(sum) => Ok(sum),
                    None => Err(batch_too_large()),
                },
            },
        }
    }
}

/// The cost of a batch, or why it is refused.
pub open spec fn batch_cost(batch: Seq<Vec<String>>) -> Result<ArgvCost, LaunchError> {
    match prefix_cost(batch, batch.len()) {
        Err(e) => Err(e),
        Ok(cost) => if cost.requests == 0 {
            Err(LaunchError::EmptyArgv)
        } else if cost.requests > MAX_BATCH_REQUESTS || cost.entries > MAX_BATCH_ARGV_ENTRIES
            || cost.bytes > MAX_BATCH_ARGV_BYTES {
            Err(batch_too_large())
        } else {
            Ok(cost)
        },
    }
}

proof fn prefix_cost_error_stays(batch: Seq<Vec<String>>, n: nat, m: nat)
    requires
        n <= m,
        prefix_cost(batch, n) is Err,
    ensures
        prefix_cost(batch, m) == prefix_cost(batch, n),
    decreases m,
{
    if n < m {
        prefix_cost_error_stays(batch, n, (m - 1) as nat);
    }
}

/// The cost of a batch: every argument vector in it must be acceptable, and all
/// of them together must keep the limits.
pub fn validate_batch(batch: &Vec<Vec<String>>) -> (r: Result<ArgvCost, LaunchError>)
    ensures
        r == batch_cost(batch@),
{
    let refused = LaunchError::BatchTooLarge {
        max_requests: MAX_BATCH_REQUESTS,
        max_entries: MAX_BATCH_ARGV_ENTRIES,
        max_bytes: MAX_BATCH_ARGV_BYTES,
    };
    let mut cost = ArgvCost { requests: 0, entries: 0, bytes: 0 };
    let mut i: usize = 0;
    while i < batch.len()
        invariant
            i <= batch.len(),
            refused == batch_too_large(),
            prefix_cost(batch@, i as nat) == Ok::<ArgvCost, LaunchError>(cost),
        decreases batch.len() - i,
    {
        let own = match argv_cost(&batch[i]) {
            Err(e) => {
                proof {
                    prefix_cost_error_stays(batch@, (i + 1) as nat, batch@.len());
                }
                return Err(e);
            },
            Ok(own) => own,
        };
        match cost.checked_add(own) {
            None => {
                proof {
                    prefix_cost_error_stays(batch@, (i + 1) as nat, batch@.len());
                }
                return Err(refused);
            },
            Some(sum) => {
                cost = sum;
            },
        }
        i = i + 1;
    }
    if cost.requests == 0 {
        return Err(LaunchError::EmptyArgv);
    }
    if cost.requests > MAX_BATCH_REQUESTS || cost.entries > MAX_BATCH_ARGV_ENTRIES || cost.bytes
        > MAX_BATCH_ARGV_BYTES {
        return Err(refused);
    }
    Ok(cost)
}

/// A launch that waits.
#[derive(Debug)]
pub struct LaunchJob {
    pub argv: Vec<String>,
    pub cost: ArgvCost,
    pub ticket: LaunchTicket,
}

/// The cost of jobs in numbers without limit.
pub open spec fn jobs_requests(jobs: Seq<LaunchJob>) -> nat
    decreases jobs.len(),
{
    if jobs.len() == 0 {
        0
    } else {
        jobs[0].cost.requests as nat + jobs_requests(jobs.drop_first())
    }
}

/// The arguments of jobs.
pub open spec fn jobs_entries(jobs: Seq<LaunchJob>) -> nat
    decreases jobs.len(),
{
    if jobs.len() == 0 {
        0
    } else {
        jobs[0].cost.entries as nat + jobs_entries(jobs.drop_first())
    }
}

/// The bytes of jobs.
pub open spec fn jobs_bytes(jobs: Seq<LaunchJob>) -> nat
    decreases jobs.len(),
{
    if jobs.len() == 0 {
        0
    } else {
        jobs[0].cost.bytes as nat + jobs_bytes(jobs.drop_first())
    }
}

/// Whether a cost is that of the jobs.
pub open spec fn cost_matches(cost: ArgvCost, jobs: Seq<LaunchJob>) -> bool {
    &&& cost.requests == jobs_requests(jobs)
    &&& cost.entries == jobs_entries(jobs)
    &&& cost.bytes == jobs_bytes(jobs)
}

/// The launches that wait for a worker.
#[derive(Debug)]
pub struct LaunchQueue {
    pub jobs: Vec<LaunchJob>,
    pub cost: ArgvCost,
    pub stopped: bool,
    pub max_requests: usize,
    pub max_entries: usize,
    pub max_bytes: usize,
}

/// What a worker gets from the queue.
#[derive(Debug)]
pub enum Popped {
    Job(LaunchJob),
    /// The queue is empty; more may come.
    Wait,
    /// The queue is empty and nothing more comes.
    Stopped,
}

/// `a` less `b`, at least zero.
pub open spec fn less(a: usize, b: usize) -> usize {
    if a >= b {
        (a - b) as usize
    } else {
        0
    }
}

proof fn jobs_cost_concat(a: Seq<LaunchJob>, b: Seq<LaunchJob>)
    ensures
        jobs_requests(a + b) == jobs_requests(a) + jobs_requests(b),
        jobs_entries(a + b) == jobs_entries(a) + jobs_entries(b),
        jobs_bytes(a + b) == jobs_bytes(a) + jobs_bytes(b),
    decreases a.len(),
{
    if a.len() == 0 {
        assert(a + b =~= b);
    } else {
        jobs_cost_concat(a.drop_first(), b);
        assert((a + b).drop_first() =~= a.drop_first() + b);
    }
}

impl LaunchQueue {
    /// The accounted cost is the cost of the waiting jobs and within the limits.
    pub open spec fn wf(self) -> bool {
        &&& cost_matches(self.cost, self.jobs@)
        &&& self.cost.requests <= self.max_requests
        &&& self.cost.entries <= self.max_entries
        &&& self.cost.bytes <= self.max_bytes
    }

    /// The error of a queue that has no room.
    pub open spec fn full(self) -> LaunchError {
        LaunchError::QueueFull {
            max_requests: self.max_requests,
            max_entries: self.max_entries,
            max_bytes: self.max_bytes,
        }
    }

    /// Whether so much more fits.
    pub open spec fn fits(self, cost: ArgvCost) -> bool {
        &&& self.cost.requests + cost.requests <= self.max_requests
        &&& self.cost.entries + cost.entries <= self.max_entries
        &&& self.cost.bytes + cost.bytes <= self.max_bytes
    }

    pub fn new(max_requests: usize) -> (r: Self)
        ensures
            r.wf(),
            r.jobs@.len() == 0,
            !r.stopped,
            r.max_requests == max_requests,
            r.max_entries == MAX_QUEUED_ARGV_ENTRIES,
            r.max_bytes == MAX_QUEUED_ARGV_BYTES,
    {
        LaunchQueue {
            jobs: Vec::new(),
            cost: ArgvCost { requests: 0, entries: 0, bytes: 0 },
            stopped: false,
            max_requests,
            max_entries: MAX_QUEUED_ARGV_ENTRIES,
            max_bytes: MAX_QUEUED_ARGV_BYTES,
        }
    }

    /// Queues all jobs of a batch, in order, or none of them.
    pub fn enqueue_batch(&mut self, jobs: Vec<LaunchJob>, cost: ArgvCost) -> (r: Result<
        (),
        LaunchError,
    >)
        ensures
            final(self).max_requests == old(self).max_requests,
            final(self).max_entries == old(self).max_entries,
            final(self).max_bytes == old(self).max_bytes,
            final(self).stopped == old(self).stopped,
            match r {
                Ok(()) => {
                    &&& !old(self).stopped
                    &&& old(self).fits(cost)
                    &&& final(self).jobs@ == old(self).jobs@ + jobs@
                    &&& cost_sum(old(self).cost, cost) == Some(final(self).cost)
                },
                Err(e) => {
                    &&& *final(self) == *old(self)
                    &&& if old(self).stopped {
                        e == LaunchError::WorkerStopped
                    } else {
                        !old(self).fits(cost) && e == old(self).full()
                    }
                },
            },
            old(self).wf() && cost_matches(cost, jobs@) ==> final(self).wf(),
    {
        if self.stopped {
            return Err(LaunchError::WorkerStopped);
        }
        let full = LaunchError::QueueFull {
            max_requests: self.max_requests,
            max_entries: self.max_entries,
            max_bytes: self.max_bytes,
        };
        let reserved = match self.cost.checked_add(cost) {
            None => {
                return Err(full);
            },
            Some(reserved) => reserved,
        };
        if reserved.requests > self.max_requests || reserved.entries > self.max_entries
            || reserved.bytes > self.max_bytes {
            return Err(full);
        }
        self.cost = reserved;
        let mut jobs = jobs;
        proof {
            jobs_cost_concat(self.jobs@, jobs@);
        }
        self.jobs.append(&mut jobs);
        Ok(())
    }

    /// The oldest job, which is no longer accounted for.
    pub fn pop(&mut self) -> (r: Popped)
        ensures
            final(self).max_requests == old(self).max_requests,
            final(self).max_entries == old(self).max_entries,
            final(self).max_bytes == old(self).max_bytes,
            final(self).stopped == old(self).stopped,
            if old(self).jobs@.len() > 0 {
                let job = old(self).jobs@[0];
                &&& r == Popped::Job(job)
                &&& final(self).jobs@ == old(self).jobs@.drop_first()
                &&& final(self).cost == (ArgvCost {
                    requests: less(old(self).cost.requests, job.cost.requests),
                    entries: less(old(self).cost.entries, job.cost.entries),
                    bytes: less(old(self).cost.bytes, job.cost.bytes),
                })
            } else {
                &&& *final(self) == *old(self)
                &&& r is Stopped == old(self).stopped
                &&& r is Wait == !old(self).stopped
            },
            old(self).wf() ==> final(self).wf(),
    {
        if self.jobs.len() == 0 {
            return if self.stopped {
                Popped::Stopped
            } else {
                Popped::Wait
            };
        }
        let ghost before = self.jobs@;
        let job = self.jobs.remove(0);
        assert(self.jobs@ =~= before.drop_first());
        self.cost = ArgvCost {
            requests: if self.cost.requests >= job.cost.requests {
                self.cost.requests - job.cost.requests
            } else {
                0
            },
            entries: if self.cost.entries >= job.cost.entries {
                self.cost.entries - job.cost.entries
            } else {
                0
            },
            bytes: if self.cost.bytes >= job.cost.bytes {
                self.cost.bytes - job.cost.bytes
            } else {
                0
            },
        };
        Popped::Job(job)
    }

    /// Nothing more is accepted.
    pub fn stop(&mut self)
        ensures
            *final(self) == (LaunchQueue { stopped: true, ..*old(self) }),
    {
        self.stopped = true;
    }
}

/// How many workers launch: two for each processor, within limits.
pub fn launch_worker_count(parallelism: Option<usize>) -> (r: usize)
    ensures
        r == worker_count(parallelism),
{
    let cores: usize = match parallelism {
        Some(n) => n,
        None => 1,
    };
    if cores >= MAX_LAUNCH_WORKERS / 2 {
        MAX_LAUNCH_WORKERS
    } else if cores * 2 < MIN_LAUNCH_WORKERS {
        MIN_LAUNCH_WORKERS
    } else {
        cores * 2
    }
}

/// How many launches may wait: four for each worker, within limits.
pub fn launch_queue_capacity(worker_count: usize) -> (r: usize)
    ensures
        r == crate::provider::clamped(
            QUEUED_REQUESTS_PER_WORKER * worker_count,
            MIN_QUEUED_REQUESTS as int,
            MAX_QUEUED_REQUESTS as int,
        ),
{
    if worker_count >= MAX_QUEUED_REQUESTS / QUEUED_REQUESTS_PER_WORKER {
        MAX_QUEUED_REQUESTS
    } else if worker_count * QUEUED_REQUESTS_PER_WORKER < MIN_QUEUED_REQUESTS {
        MIN_QUEUED_REQUESTS
    } else {
        worker_count * QUEUED_REQUESTS_PER_WORKER
    }
}

/// The workers of the launch service.
#[derive(Debug)]
pub enum Workers {
    NotStarted,
    Running(LaunchQueue),
    Unavailable,
}

/// Whether a queue takes as much as another, and takes it as long.
pub open spec fn same_room(a: LaunchQueue, b: LaunchQueue) -> bool {
    &&& a.max_requests == b.max_requests
    &&& a.max_entries == b.max_entries
    &&& a.max_bytes == b.max_bytes
    &&& a.stopped == b.stopped
}

/// The launch service: its workers and the next ticket.
#[derive(Debug)]
pub struct LaunchService {
    pub workers: Workers,
    pub next_ticket: u64,
}

/// Whether the jobs of a batch are queued as they were submitted: one for each
/// argument vector, in order, with consecutive tickets.
pub open spec fn jobs_of_batch(jobs: Seq<LaunchJob>, batch: Seq<Vec<String>>, first_ticket: u64) -> bool {
    &&& jobs.len() == batch.len()
    &&& forall|i: int|
        0 <= i < jobs.len() ==> {
            &&& (#[trigger] jobs[i]).argv == batch[i]
            &&& cost_of(batch[i]@) == Ok::<ArgvCost, LaunchError>(jobs[i].cost)
            &&& jobs[i].ticket.id == first_ticket + i
        }
}

/// How many threads launch.
pub open spec fn worker_count(parallelism: Option<usize>) -> int {
    crate::provider::clamped(
        2 * (match parallelism {
            Some(n) => n as int,
            None => 1,
        }),
        MIN_LAUNCH_WORKERS as int,
        MAX_LAUNCH_WORKERS as int,
    )
}

/// Whether a queue has just been made for so many threads: nothing waits in it,
/// and all its room is left.
pub open spec fn is_fresh(queue: LaunchQueue, threads: int) -> bool {
    &&& queue.wf()
    &&& queue.jobs@.len() == 0
    &&& queue.cost == (ArgvCost { requests: 0, entries: 0, bytes: 0 })
    &&& !queue.stopped
    &&& queue.max_requests == crate::provider::clamped(
        QUEUED_REQUESTS_PER_WORKER * threads,
        MIN_QUEUED_REQUESTS as int,
        MAX_QUEUED_REQUESTS as int,
    )
    &&& queue.max_entries == MAX_QUEUED_ARGV_ENTRIES
    &&& queue.max_bytes == MAX_QUEUED_ARGV_BYTES
}

/// Whether a service has just started its workers.
pub open spec fn just_started(service: LaunchService, threads: int) -> bool {
    service.workers is Running && is_fresh(service.workers->Running_0, threads)
}

/// Whether this is the queue that a submission goes to: that of the workers that
/// run, or a fresh one where they were not started yet.
pub open spec fn takes_submissions(
    workers: Workers,
    parallelism: Option<usize>,
    queue: LaunchQueue,
) -> bool {
    match workers {
        Workers::Running(running) => running == queue,
        Workers::NotStarted => is_fresh(queue, worker_count(parallelism)),
        Workers::Unavailable => false,
    }
}

/// How many threads a submission has to start.
pub open spec fn threads_owed(workers: Workers, parallelism: Option<usize>) -> Option<usize> {
    if workers is NotStarted {
        Some(worker_count(parallelism) as usize)
    } else {
        None
    }
}

/// What a valid batch comes to that goes to a queue: all of it is queued, or
/// nothing, and why.
pub open spec fn batch_submitted(
    queue: LaunchQueue,
    first_ticket: u64,
    batch: Seq<Vec<String>>,
    cost: ArgvCost,
    after: LaunchService,
    result: Result<Vec<LaunchTicket>, LaunchError>,
) -> bool {
    if queue.stopped || !queue.fits(cost) {
        &&& result == Err::<Vec<LaunchTicket>, LaunchError>(
            if queue.stopped {
                LaunchError::WorkerStopped
            } else {
                queue.full()
            },
        )
        &&& after == (LaunchService { workers: Workers::Running(queue), next_ticket: first_ticket })
    } else {
        let filled = after.workers->Running_0;
        &&& result is Ok
        &&& result->Ok_0@.len() == batch.len()
        &&& forall|i: int|
            0 <= i < batch.len() ==> (#[trigger] result->Ok_0@[i]).id == first_ticket + i
        &&& after.workers is Running
        &&& filled.jobs@.len() == queue.jobs@.len() + batch.len()
        &&& filled.jobs@.take(queue.jobs@.len() as int) == queue.jobs@
        &&& jobs_of_batch(filled.jobs@.skip(queue.jobs@.len() as int), batch, first_ticket)
        &&& cost_sum(queue.cost, cost) == Some(filled.cost)
        &&& same_room(filled, queue)
        &&& queue.wf() ==> filled.wf()
        &&& after.next_ticket == first_ticket + batch.len()
    }
}

/// What a single acceptable launch comes to that goes to a queue.
pub open spec fn launch_submitted(
    queue: LaunchQueue,
    next_ticket: u64,
    argv: Vec<String>,
    cost: ArgvCost,
    after: LaunchService,
    result: Result<LaunchTicket, LaunchError>,
) -> bool {
    if queue.stopped || !queue.fits(cost) {
        &&& result == Err::<LaunchTicket, LaunchError>(
            if queue.stopped {
                LaunchError::WorkerStopped
            } else {
                queue.full()
            },
        )
        &&& after == (LaunchService { workers: Workers::Running(queue), next_ticket })
    } else {
        let filled = after.workers->Running_0;
        let ticket = LaunchTicket { id: next_ticket };
        &&& result == Ok::<LaunchTicket, LaunchError>(ticket)
        &&& after.workers is Running
        &&& filled.jobs@ == queue.jobs@.push(LaunchJob { argv, cost, ticket })
        &&& cost_sum(queue.cost, cost) == Some(filled.cost)
        &&& same_room(filled, queue)
        &&& queue.wf() ==> filled.wf()
        &&& after.next_ticket == next_ticket + 1
    }
}

proof fn batch_cost_is_that_of_its_jobs(
    jobs: Seq<LaunchJob>,
    batch: Seq<Vec<String>>,
    first_ticket: u64,
    n: nat,
)
    requires
        jobs_of_batch(jobs, batch, first_ticket),
        n <= batch.len(),
        prefix_cost(batch, n) is Ok,
    ensures
        cost_matches(prefix_cost(batch, n)->Ok_0, jobs.take(n as int)),
    decreases n,
{
    if n > 0 {
        let before = (n - 1) as nat;
        batch_cost_is_that_of_its_jobs(jobs, batch, first_ticket, before);
        let last = jobs[n - 1];
        let one = seq![last];
        assert(jobs.take(n as int) =~= jobs.take(n - 1) + one);
        jobs_cost_concat(jobs.take(n - 1), one);
        reveal_with_fuel(jobs_requests, 2);
        reveal_with_fuel(jobs_entries, 2);
        reveal_with_fuel(jobs_bytes, 2);
    }
}

impl LaunchService {
    pub fn new() -> (r: Self)
        ensures
            r.workers is NotStarted,
            r.next_ticket == 0,
    {
        LaunchService { workers: Workers::NotStarted, next_ticket: 0 }
    }

    /// Starts the workers, once: how many threads have to be started.
    pub fn start_workers(&mut self, parallelism: Option<usize>) -> (r: Option<usize>)
        ensures
            final(self).next_ticket == old(self).next_ticket,
            if old(self).workers is NotStarted {
                &&& r == Some(worker_count(parallelism) as usize)
                &&& just_started(*final(self), worker_count(parallelism))
            } else {
                r is None && *final(self) == *old(self)
            },
    {
        if !matches!(self.workers, Workers::NotStarted) {
            return None;
        }
        let count: usize = launch_worker_count(parallelism);
        self.workers = Workers::Running(LaunchQueue::new(launch_queue_capacity(count)));
        Some(count)
    }

    /// A worker thread could not be started: the service is unavailable from
    /// now on.
    pub fn workers_failed(&mut self)
        ensures
            final(self).workers is Unavailable,
            final(self).next_ticket == old(self).next_ticket,
    {
        self.workers = Workers::Unavailable;
    }

    /// Queues a batch and returns its tickets in the order of the batch. The first
    /// acceptable batch starts the workers: how many threads have to be started
    /// then comes with the result. A batch that is refused is not queued in part.
    pub fn submit_detached_batch(
        &mut self,
        parallelism: Option<usize>,
        batch: Vec<Vec<String>>,
    ) -> (r: (Option<usize>, Result<Vec<LaunchTicket>, LaunchError>))
        requires
            old(self).next_ticket + batch@.len() <= u64::MAX,
        ensures
            match batch_cost(batch@) {
                Err(e) => {
                    &&& r == (None::<usize>, Err::<Vec<LaunchTicket>, LaunchError>(e))
                    &&& *final(self) == *old(self)
                },
                Ok(cost) => if old(self).workers is Unavailable {
                    &&& r == (
                        None::<usize>,
                        Err::<Vec<LaunchTicket>, LaunchError>(LaunchError::WorkerUnavailable),
                    )
                    &&& *final(self) == *old(self)
                } else {
                    &&& r.0 == threads_owed(old(self).workers, parallelism)
                    &&& exists|queue: LaunchQueue|
                        {
                            &&& #[trigger] takes_submissions(
                                old(self).workers,
                                parallelism,
                                queue,
                            )
                            &&& batch_submitted(
                                queue,
                                old(self).next_ticket,
                                batch@,
                                cost,
                                *final(self),
                                r.1,
                            )
                        }
                },
            },
    {
        let cost = match validate_batch(&batch) {
            Err(e) => {
                return (None, Err(e));
            },
            Ok(cost) => cost,
        };
        let threads = self.start_workers(parallelism);
        let first: u64 = self.next_ticket;
        let count: usize = batch.len();
        let ghost whole = batch@;
        let mut jobs: Vec<LaunchJob> = Vec::new();
        let mut tickets: Vec<LaunchTicket> = Vec::new();
        let mut left = batch;
        let mut i: usize = 0;
        proof {
            batch_parts_are_fine(whole, whole.len());
        }
        while i < count
            invariant
                i <= count,
                count == whole.len(),
                first + count <= u64::MAX,
                left@ == whole.skip(i as int),
                tickets@.len() == i,
                forall|k: int| 0 <= k < i ==> (#[trigger] tickets@[k]).id == first + k,
                jobs_of_batch(jobs@, whole.take(i as int), first),
                forall|k: int| 0 <= k < whole.len() ==> cost_of((#[trigger] whole[k])@) is Ok,
            decreases count - i,
        {
            let argv = left.remove(0);
            assert(left@ =~= whole.skip(i + 1));
            assert(argv == whole[i as int]);
            let ticket = LaunchTicket { id: first + i as u64 };
            match argv_cost(&argv) {
                Ok(own) => {
                    let ghost before = jobs@;
                    jobs.push(LaunchJob { argv, cost: own, ticket });
                    proof {
                        let next = whole.take(i + 1);
                        assert forall|k: int| 0 <= k < jobs@.len() implies {
                            &&& (#[trigger] jobs@[k]).argv == next[k]
                            &&& cost_of(next[k]@) == Ok::<ArgvCost, LaunchError>(jobs@[k].cost)
                            &&& jobs@[k].ticket.id == first + k
                        } by {
                            if k < i {
                                assert(jobs@[k] == before[k]);
                                assert(whole.take(i as int)[k] == next[k]);
                            }
                        }
                    }
                },
                Err(e) => {
                    return (threads, Err(e));
                },
            }
            tickets.push(ticket);
            i = i + 1;
        }
        assert(whole.take(count as int) =~= whole);
        let ghost taking = self.workers->Running_0;
        match &mut self.workers {
            Workers::Running(queue) => {
                let ghost queued = queue.jobs@;
                let ghost added = jobs@;
                proof {
                    batch_cost_is_that_of_its_jobs(added, whole, first, whole.len());
                    assert(added.take(whole.len() as int) =~= added);
                }
                match queue.enqueue_batch(jobs, cost) {
                    Err(e) => {
                        proof {
                            assert(takes_submissions(old(self).workers, parallelism, taking));
                            assert(batch_submitted(
                                taking,
                                first,
                                whole,
                                cost,
                                *self,
                                Err::<Vec<LaunchTicket>, LaunchError>(e),
                            ));
                        }
                        return (threads, Err(e));
                    },
                    Ok(()) => {
                        assert((queued + added).take(queued.len() as int) =~= queued);
                        assert((queued + added).skip(queued.len() as int) =~= added);
                    },
                }
            },
            _ => {
                return (threads, Err(LaunchError::WorkerUnavailable));
            },
        }
        self.next_ticket = first + count as u64;
        proof {
            assert(takes_submissions(old(self).workers, parallelism, taking));
            assert(batch_submitted(
                taking,
                first,
                whole,
                cost,
                *self,
                Ok::<Vec<LaunchTicket>, LaunchError>(tickets),
            ));
        }
        (threads, Ok(tickets))
    }

    /// Queues one launch. The first acceptable one starts the workers.
    pub fn submit_detached_argv(&mut self, parallelism: Option<usize>, argv: Vec<String>) -> (r: (
        Option<usize>,
        Result<LaunchTicket, LaunchError>,
    ))
        requires
            old(self).next_ticket < u64::MAX,
        ensures
            match cost_of(argv@) {
                Err(e) => {
                    &&& r == (None::<usize>, Err::<LaunchTicket, LaunchError>(e))
                    &&& *final(self) == *old(self)
                },
                Ok(cost) => if old(self).workers is Unavailable {
                    &&& r == (
                        None::<usize>,
                        Err::<LaunchTicket, LaunchError>(LaunchError::WorkerUnavailable),
                    )
                    &&& *final(self) == *old(self)
                } else {
                    &&& r.0 == threads_owed(old(self).workers, parallelism)
                    &&& exists|queue: LaunchQueue|
                        {
                            &&& #[trigger] takes_submissions(
                                old(self).workers,
                                parallelism,
                                queue,
                            )
                            &&& launch_submitted(
                                queue,
                                old(self).next_ticket,
                                argv,
                                cost,
                                *final(self),
                                r.1,
                            )
                        }
                },
            },
    {
        let mut batch: Vec<Vec<String>> = Vec::new();
        batch.push(argv);
        let ghost whole = batch@;
        proof {
            reveal_with_fuel(prefix_cost, 2);
            assert(batch@[0] == argv);
        }
        let (threads, result) = self.submit_detached_batch(parallelism, batch);
        let ghost submitted = result;
        let single = match result {
            Err(e) => Err(e),
            Ok(tickets) => Ok(tickets[0]),
        };
        proof {
            if cost_of(argv@) is Ok && !(old(self).workers is Unavailable) {
                let cost = cost_of(argv@)->Ok_0;
                let queue = choose|queue: LaunchQueue|
                    {
                        &&& #[trigger] takes_submissions(old(self).workers, parallelism, queue)
                        &&& batch_submitted(
                            queue,
                            old(self).next_ticket,
                            whole,
                            cost,
                            *self,
                            submitted,
                        )
                    };
                if submitted is Ok {
                    let after = self.workers->Running_0.jobs@;
                    let added = after.skip(queue.jobs@.len() as int);
                    assert(added[0] == after.last());
                    assert(added[0].argv == argv);
                    assert(after =~= after.take(queue.jobs@.len() as int).push(added[0]));
                }
                assert(launch_submitted(
                    queue,
                    old(self).next_ticket,
                    argv,
                    cost,
                    *self,
                    single,
                ));
            }
        }
        (threads, single)
    }
}

proof fn batch_parts_are_fine(batch: Seq<Vec<String>>, n: nat)
    requires
        n <= batch.len(),
        prefix_cost(batch, n) is Ok,
    ensures
        forall|k: int| 0 <= k < n ==> cost_of((#[trigger] batch[k])@) is Ok,
    decreases n,
{
    if n > 0 {
        batch_parts_are_fine(batch, (n - 1) as nat);
    }
}

/// What is known of the user's service manager.
#[derive(Debug, Clone, Copy, PartialEq, Eq, Structural)]
pub enum CapabilityState {
    Unknown,
    Probing,
    /// It did not answer; it is not asked again before this time.
    Unavailable { retry_at: u64 },
    Available,
}

/// What is known of the service manager, and the probe that finds it out. Times
/// are milliseconds of one clock.
#[derive(Debug, Clone, Copy, PartialEq, Eq, Structural)]
pub struct UserServiceCapability {
    pub state: CapabilityState,
    pub probe_running: bool,
    pub probe_generation: u64,
}

/// The number after `n`, around the end.
pub open spec fn next_generation(n: u64) -> u64 {
    if n == u64::MAX {
        0
    } else {
        (n + 1) as u64
    }
}

fn generation_after(n: u64) -> (r: u64)
    ensures
        r == next_generation(n),
{
    if n == u64::MAX {
        0
    } else {
        n + 1
    }
}

/// Whether the clock leaves room for one retry time.
pub open spec fn clock_in_range(now: u64) -> bool {
    now + USER_SERVICE_RETRY_AFTER_MILLIS <= u64::MAX
}

/// The state after a failure at `now`.
pub open spec fn failed_at(now: u64) -> CapabilityState {
    CapabilityState::Unavailable { retry_at: (now + USER_SERVICE_RETRY_AFTER_MILLIS) as u64 }
}

/// What a launch that waits for the probe does.
#[derive(Debug, Clone, Copy, PartialEq, Eq, Structural)]
pub enum CapabilityAnswer {
    Available,
    Unavailable,
    /// Nothing is known yet: wait for a change, at most so long.
    Wait { millis: u64 },
}

impl UserServiceCapability {
    pub fn new(state: CapabilityState) -> (r: Self)
        ensures
            r == (UserServiceCapability { state, probe_running: false, probe_generation: 0 }),
    {
        UserServiceCapability { state, probe_running: false, probe_generation: 0 }
    }

    /// The state is replaced; an outstanding result of a probe that no longer
    /// runs is forgotten.
    pub open spec fn replaced(self, state: CapabilityState) -> UserServiceCapability {
        UserServiceCapability {
            state,
            probe_running: self.probe_running,
            probe_generation: if self.probe_running {
                self.probe_generation
            } else {
                next_generation(self.probe_generation)
            },
        }
    }

    /// Whether a probe may start.
    pub open spec fn may_probe(self, now: u64) -> bool {
        !self.probe_running && match self.state {
            CapabilityState::Unknown => true,
            CapabilityState::Unavailable { retry_at } => now >= retry_at,
            _ => false,
        }
    }

    /// The service manager cannot be used for now.
    pub fn set_unavailable(&mut self, now: u64)
        requires
            clock_in_range(now),
        ensures
            *final(self) == old(self).replaced(failed_at(now)),
    {
        if !self.probe_running {
            self.probe_generation = generation_after(self.probe_generation);
        }
        self.state = CapabilityState::Unavailable {
            retry_at: now + USER_SERVICE_RETRY_AFTER_MILLIS,
        };
    }

    /// What was known is no longer trusted.
    pub fn invalidate(&mut self)
        ensures
            *final(self) == old(self).replaced(CapabilityState::Unknown),
    {
        if !self.probe_running {
            self.probe_generation = generation_after(self.probe_generation);
        }
        self.state = CapabilityState::Unknown;
    }

    /// Starts a probe, unless one runs or there is nothing to find out.
    pub fn begin_probe(&mut self, now: u64) -> (r: Option<u64>)
        ensures
            if old(self).may_probe(now) {
                let generation = next_generation(old(self).probe_generation);
                &&& r == Some(generation)
                &&& *final(self) == (UserServiceCapability {
                    state: CapabilityState::Probing,
                    probe_running: true,
                    probe_generation: generation,
                })
            } else {
                r is None && *final(self) == *old(self)
            },
    {
        if self.probe_running {
            return None;
        }
        let eligible = match self.state {
            CapabilityState::Available | CapabilityState::Probing => false,
            CapabilityState::Unavailable { retry_at } => now >= retry_at,
            CapabilityState::Unknown => true,
        };
        if !eligible {
            return None;
        }
        let generation: u64 = generation_after(self.probe_generation);
        self.probe_running = true;
        self.probe_generation = generation;
        self.state = CapabilityState::Probing;
        Some(generation)
    }

    /// The result of a probe; that of an older one changes nothing.
    pub fn finish_probe(&mut self, generation: u64, available: bool, now: u64)
        requires
            clock_in_range(now),
        ensures
            *final(self) == (if old(self).probe_generation != generation {
                *old(self)
            } else {
                UserServiceCapability {
                    state: if available {
                        CapabilityState::Available
                    } else {
                        failed_at(now)
                    },
                    probe_running: false,
                    probe_generation: generation,
                }
            }),
    {
        if self.probe_generation != generation {
            return;
        }
        self.state = if available {
            CapabilityState::Available
        } else {
            CapabilityState::Unavailable { retry_at: now + USER_SERVICE_RETRY_AFTER_MILLIS }
        };
        self.probe_running = false;
    }

    /// A probe takes too long: launches stop waiting for it. It still counts as
    /// running, so that no second one starts beside it.
    pub fn mark_probe_stalled(&mut self, generation: u64, now: u64)
        requires
            clock_in_range(now),
        ensures
            *final(self) == (if old(self).probe_generation == generation && old(self).probe_running
                && old(self).state is Probing {
                UserServiceCapability { state: failed_at(now), ..*old(self) }
            } else {
                *old(self)
            }),
    {
        if self.probe_generation == generation && self.probe_running && matches!(
            self.state,
            CapabilityState::Probing
        ) {
            self.state = CapabilityState::Unavailable {
                retry_at: now + USER_SERVICE_RETRY_AFTER_MILLIS,
            };
        }
    }

    /// What a launch that waits until `deadline` learns at `now`. Past the
    /// deadline an unknown answer becomes a failure.
    pub fn poll_capability(&mut self, now: u64, deadline: u64) -> (r: CapabilityAnswer)
        requires
            clock_in_range(now),
        ensures
            match old(self).state {
                CapabilityState::Available => r is Available && *final(self) == *old(self),
                CapabilityState::Unavailable { .. } => r is Unavailable && *final(self) == *old(
                    self,
                ),
                _ => if now > deadline {
                    &&& r is Unavailable
                    &&& *final(self) == (UserServiceCapability {
                        state: failed_at(now),
                        ..*old(self)
                    })
                } else {
                    &&& r == (CapabilityAnswer::Wait { millis: (deadline - now) as u64 })
                    &&& *final(self) == *old(self)
                },
            },
    {
        match self.state {
            CapabilityState::Available => CapabilityAnswer::Available,
            CapabilityState::Unavailable { .. } => CapabilityAnswer::Unavailable,
            CapabilityState::Unknown | CapabilityState::Probing => {
                if now > deadline {
                    self.state = CapabilityState::Unavailable {
                        retry_at: now + USER_SERVICE_RETRY_AFTER_MILLIS,
                    };
                    CapabilityAnswer::Unavailable
                } else {
                    CapabilityAnswer::Wait { millis: deadline - now }
                }
            },
        }
    }

    /// A wait ended without a change. A probe that is still out then counts as
    /// failed, and the launch gives up waiting.
    pub fn wait_timed_out(&mut self, now: u64) -> (r: bool)
        requires
            clock_in_range(now),
        ensures
            r == (old(self).state is Probing),
            *final(self) == (if old(self).state is Probing {
                UserServiceCapability { state: failed_at(now), ..*old(self) }
            } else {
                *old(self)
            }),
    {
        if matches!(self.state, CapabilityState::Probing) {
            self.state = CapabilityState::Unavailable {
                retry_at: now + USER_SERVICE_RETRY_AFTER_MILLIS,
            };
            true
        } else {
            false
        }
    }
}

/// A probe that stalls never lets a second one start: as long as it runs, no
/// probe begins, whatever the clock says.
pub proof fn stalled_probe_blocks_others(c: UserServiceCapability, now: u64)
    requires
        c.probe_running,
    ensures
        !c.may_probe(now),
{
}

/// A failed probe is not repeated before its time, and is possible again after
/// it.
pub proof fn failure_is_retried_after_its_time(c: UserServiceCapability, failed: u64, now: u64)
    requires
        clock_in_range(failed),
        c.state == failed_at(failed),
        !c.probe_running,
    ensures
        c.may_probe(now) <==> now >= failed + USER_SERVICE_RETRY_AFTER_MILLIS,
{
}

/// What a launch handed to the service manager came to.
#[derive(Debug)]
pub enum Handoff {
    Exited { success: bool, status: String },
    Failed(LaunchError),
}

/// The outcome of a hand-off. Any failure makes the capability unknown again,
/// so that the next launch asks anew instead of going direct.
pub fn finish_user_service_handoff(shared: &mut UserServiceCapability, result: Handoff) -> (r:
    Result<LaunchReceipt, LaunchError>)
    ensures
        match result {
            Handoff::Exited { success: true, .. } => {
                &&& r == Ok::<LaunchReceipt, LaunchError>(LaunchReceipt::UserService)
                &&& *final(shared) == *old(shared)
            },
            Handoff::Exited { success: false, status } => {
                &&& r == Err::<LaunchReceipt, LaunchError>(LaunchError::HandoffRejected { status })
                &&& *final(shared) == old(shared).replaced(CapabilityState::Unknown)
            },
            Handoff::Failed(error) => {
                &&& r == Err::<LaunchReceipt, LaunchError>(error)
                &&& *final(shared) == old(shared).replaced(CapabilityState::Unknown)
            },
        },
{
    match result {
        Handoff::Exited { success, status } => if success {
            Ok(LaunchReceipt::UserService)
        } else {
            shared.invalidate();
            Err(LaunchError::HandoffRejected { status })
        },
        Handoff::Failed(error) => {
            shared.invalidate();
            Err(error)
        },
    }
}

/// What a look at the hand-off's helper shows.
#[derive(Debug)]
pub enum HelperPoll {
    Exited { success: bool, status: String },
    Running,
    Failed(String),
}

/// What happens to the helper next.
#[derive(Debug)]
pub enum HandoffStep {
    Finished(Handoff),
    /// Look again after so long.
    Sleep { millis: u64 },
    /// The helper and its group have to be killed and waited for.
    Terminate(LaunchError),
}

/// The step after a look at the helper, which has a limited time to exit.
pub fn wait_handoff(poll: HelperPoll, elapsed_millis: u64, timeout_millis: u64) -> (r: HandoffStep)
    ensures
        r == (match poll {
            HelperPoll::Exited { success, status } => HandoffStep::Finished(
                Handoff::Exited { success, status },
            ),
            HelperPoll::Running => if elapsed_millis < timeout_millis {
                HandoffStep::Sleep { millis: HANDOFF_POLL_MILLIS }
            } else {
                HandoffStep::Terminate(LaunchError::HandoffTimeout { millis: timeout_millis })
            },
            HelperPoll::Failed(source) => HandoffStep::Terminate(
                LaunchError::HandoffWait { source },
            ),
        }),
        r is Finished <==> poll is Exited,
        r is Sleep <==> poll is Running && elapsed_millis < timeout_millis,
        r is Sleep ==> r->millis == 5,
{
    match poll {
        HelperPoll::Exited { success, status } => HandoffStep::Finished(
            Handoff::Exited { success, status },
        ),
        HelperPoll::Running => if elapsed_millis < timeout_millis {
            HandoffStep::Sleep { millis: HANDOFF_POLL_MILLIS }
        } else {
            HandoffStep::Terminate(LaunchError::HandoffTimeout { millis: timeout_millis })
        },
        HelperPoll::Failed(source) => HandoffStep::Terminate(LaunchError::HandoffWait { source }),
    }
}

/// The options that every hand-off has.
pub open spec fn service_options() -> Seq<Seq<char>> {
    seq![
        "systemd-run"@,
        "--user"@,
        "--collect"@,
        "--quiet"@,
        "--service-type=exec"@,
        "--expand-environment=no"@,
        "--same-dir"@,
    ]
}

/// The command that hands a launch to the service manager: its own options, the
/// names of the variables to pass on, then the program and its arguments as
/// they are.
pub open spec fn service_argv(
    program: Seq<char>,
    arguments: Seq<Seq<char>>,
    names: Seq<Seq<char>>,
) -> Seq<Seq<char>> {
    service_options() + Seq::new(names.len(), |i: int| "--setenv="@ + names[i]) + seq![
        "--"@,
        program,
    ] + arguments
}

fn push_texts(out: &mut Vec<String>, more: &Vec<String>)
    ensures
        crate::text::texts(final(out)@) == crate::text::texts(old(out)@) + crate::text::texts(
            more@,
        ),
{
    let ghost before = crate::text::texts(out@);
    let mut i: usize = 0;
    assert(before + crate::text::texts(more@).take(0) =~= before);
    while i < more.len()
        invariant
            i <= more.len(),
            crate::text::texts(out@) == before + crate::text::texts(more@).take(i as int),
        decreases more.len() - i,
    {
        let ghost shorter = crate::text::texts(out@);
        out.push(more[i].clone());
        proof {
            let own = crate::text::texts(more@);
            assert(crate::text::texts(out@) =~= shorter.push(own[i as int]));
            assert(own.take(i + 1) =~= own.take(i as int).push(own[i as int]));
            assert(before + own.take(i + 1) =~= (before + own.take(i as int)).push(own[i as int]));
        }
        i = i + 1;
    }
    assert(crate::text::texts(more@).take(i as int) =~= crate::text::texts(more@));
}

fn push_text(out: &mut Vec<String>, text: &str)
    ensures
        crate::text::texts(final(out)@) == crate::text::texts(old(out)@).push(text@),
{
    let ghost before = crate::text::texts(out@);
    out.push(text.to_owned());
    assert(crate::text::texts(out@) =~= before.push(text@));
}

/// The command that hands a launch to the service manager.
pub fn user_service_command(
    program: &str,
    arguments: &Vec<String>,
    environment_names: &Vec<String>,
) -> (r: Vec<String>)
    ensures
        crate::text::texts(r@) == service_argv(
            program@,
            crate::text::texts(arguments@),
            crate::text::texts(environment_names@),
        ),
{
    let mut command: Vec<String> = Vec::new();
    assert(crate::text::texts(command@) =~= Seq::empty());
    push_text(&mut command, "systemd-run");
    push_text(&mut command, "--user");
    push_text(&mut command, "--collect");
    push_text(&mut command, "--quiet");
    push_text(&mut command, "--service-type=exec");
    push_text(&mut command, "--expand-environment=no");
    push_text(&mut command, "--same-dir");
    let ghost options = crate::text::texts(command@);
    assert(options =~= service_options());
    let ghost names = crate::text::texts(environment_names@);
    let ghost settings = Seq::new(names.len(), |i: int| "--setenv="@ + names[i]);
    let mut i: usize = 0;
    assert(options + settings.take(0) =~= options);
    while i < environment_names.len()
        invariant
            i <= environment_names.len(),
            names == crate::text::texts(environment_names@),
            settings == Seq::new(names.len(), |k: int| "--setenv="@ + names[k]),
            crate::text::texts(command@) == options + settings.take(i as int),
        decreases environment_names.len() - i,
    {
        let mut setting = "--setenv=".to_owned();
        setting.append(environment_names[i].as_str());
        proof {
            assert(settings[i as int] == setting@);
            assert(settings.take(i + 1) =~= settings.take(i as int).push(settings[i as int]));
            assert(options + settings.take(i + 1) =~= (options + settings.take(i as int)).push(
                setting@,
            ));
        }
        push_text(&mut command, setting.as_str());
        i = i + 1;
    }
    assert(settings.take(i as int) =~= settings);
    let ghost before = crate::text::texts(command@);
    push_text(&mut command, "--");
    push_text(&mut command, program);
    assert(crate::text::texts(command@) =~= before + seq!["--"@, program@]);
    push_texts(&mut command, arguments);
    command
}

/// How a launch is made.
#[derive(Debug)]
pub enum LaunchRoute {
    /// As a child of this process.
    Direct { command: Vec<String> },
    /// By handing it to the service manager. If that cannot even be started,
    /// the launch is made directly.
    UserService { command: Vec<String>, direct: Vec<String> },
}

/// Whether the service manager has to be asked at all: only for a launch that
/// it could be given.
pub fn service_possible(
    environment_names: Option<&Vec<String>>,
    manager_program: Option<&String>,
) -> (r: bool)
    ensures
        r == (environment_names is Some && manager_program is Some),
{
    environment_names.is_some() && manager_program.is_some()
}

/// How an argument vector is launched: through the service manager where the
/// environment can be passed on, the program has an absolute path, and the
/// manager is there; else directly.
pub fn spawn_detached_argv(
    argv: &Vec<String>,
    environment_names: Option<&Vec<String>>,
    manager_program: Option<&String>,
    manager_available: bool,
) -> (r: Result<LaunchRoute, LaunchError>)
    ensures
        match cost_of(argv@) {
            Err(e) => r == Err::<LaunchRoute, LaunchError>(e),
            Ok(_) => match r {
                Ok(LaunchRoute::Direct { command }) => {
                    &&& environment_names is None || manager_program is None || !manager_available
                    &&& crate::text::texts(command@) == crate::text::texts(argv@)
                },
                Ok(LaunchRoute::UserService { command, direct }) => {
                    &&& environment_names is Some && manager_program is Some && manager_available
                    &&& crate::text::texts(direct@) == crate::text::texts(argv@)
                    &&& crate::text::texts(command@) == service_argv(
                        manager_program->0@,
                        crate::text::texts(argv@).drop_first(),
                        crate::text::texts(environment_names->0@),
                    )
                },
                Err(_) => false,
            },
        },
{
    match validate_argv(argv) {
        Err(e) => {
            return Err(e);
        },
        Ok(()) => {},
    }
    let mut direct: Vec<String> = Vec::new();
    push_texts(&mut direct, argv);
    assert(crate::text::texts(direct@) =~= crate::text::texts(argv@));
    if let (Some(names), Some(program)) = (environment_names, manager_program) {
        if manager_available {
            let mut arguments: Vec<String> = Vec::new();
            push_texts(&mut arguments, argv);
            assert(crate::text::texts(arguments@) =~= crate::text::texts(argv@));
            let ghost whole = arguments@;
            let _program = arguments.remove(0);
            assert(crate::text::texts(arguments@) =~= crate::text::texts(whole).drop_first());
            let command = user_service_command(program.as_str(), &arguments, names);
            return Ok(LaunchRoute::UserService { command, direct });
        }
    }
    Ok(LaunchRoute::Direct { command: direct })
}

/// A probe that has to be run.
#[derive(Debug)]
pub struct Probe {
    pub generation: u64,
    pub command: Vec<String>,
}

/// Starts finding out whether the service manager is there. Without an
/// environment that can be passed on, or without a program to try, it counts as
/// unavailable.
pub fn warm_user_service_capability(
    capability: &mut UserServiceCapability,
    environment_names: Option<&Vec<String>>,
    probe_executable: Option<&String>,
    now: u64,
) -> (r: Option<Probe>)
    requires
        clock_in_range(now),
    ensures
        if environment_names is None || probe_executable is None {
            r is None && *final(capability) == old(capability).replaced(failed_at(now))
        } else if old(capability).may_probe(now) {
            &&& r is Some
            &&& r->0.generation == next_generation(old(capability).probe_generation)
            &&& crate::text::texts(r->0.command@) == service_argv(
                probe_executable->0@,
                Seq::empty(),
                crate::text::texts(environment_names->0@),
            )
            &&& *final(capability) == (UserServiceCapability {
                state: CapabilityState::Probing,
                probe_running: true,
                probe_generation: r->0.generation,
            })
        } else {
            r is None && *final(capability) == *old(capability)
        },
{
    if let (Some(names), Some(program)) = (environment_names, probe_executable) {
        match capability.begin_probe(now) {
            None => None,
            Some(generation) => {
                let none: Vec<String> = Vec::new();
                assert(crate::text::texts(none@) =~= Seq::empty());
                Some(
                    Probe {
                        generation,
                        command: user_service_command(program.as_str(), &none, names),
                    },
                )
            },
        }
    } else {
        capability.set_unavailable(now);
        None
    }
}

/// Prepares for the first launch: starts the workers, once, and a probe.
pub fn warm_launch_service(
    service: &mut LaunchService,
    parallelism: Option<usize>,
    capability: &mut UserServiceCapability,
    environment_names: Option<&Vec<String>>,
    probe_executable: Option<&String>,
    now: u64,
) -> (r: (Option<usize>, Option<Probe>))
    requires
        clock_in_range(now),
    ensures
        final(service).next_ticket == old(service).next_ticket,
        if old(service).workers is NotStarted {
            &&& r.0 == Some(worker_count(parallelism) as usize)
            &&& just_started(*final(service), worker_count(parallelism))
        } else {
            r.0 is None && *final(service) == *old(service)
        },
        if environment_names is None || probe_executable is None {
            r.1 is None && *final(capability) == old(capability).replaced(failed_at(now))
        } else if old(capability).may_probe(now) {
            &&& r.1 is Some
            &&& r.1->0.generation == next_generation(old(capability).probe_generation)
            &&& crate::text::texts(r.1->0.command@) == service_argv(
                probe_executable->0@,
                Seq::empty(),
                crate::text::texts(environment_names->0@),
            )
            &&& *final(capability) == (UserServiceCapability {
                state: CapabilityState::Probing,
                probe_running: true,
                probe_generation: r.1->0.generation,
            })
        } else {
            r.1 is None && *final(capability) == *old(capability)
        },
{
    let workers = service.start_workers(parallelism);
    let probe = warm_user_service_capability(
        capability,
        environment_names,
        probe_executable,
        now,
    );
    (workers, probe)
}

/// Takes one of `limit` places.
pub fn reserve_counter(counter: &mut usize, limit: usize) -> (r: Result<(), LaunchError>)
    ensures
        if *old(counter) < limit {
            r == Ok::<(), LaunchError>(()) && *final(counter) == *old(counter) + 1
        } else {
            r == Err::<(), LaunchError>(LaunchError::DirectCapacity { limit }) && *final(counter)
                == *old(counter)
        },
{
    if *counter < limit {
        *counter = *counter + 1;
        Ok(())
    } else {
        Err(LaunchError::DirectCapacity { limit })
    }
}

/// What a look at a direct child shows.
#[derive(Debug, Clone, Copy, PartialEq, Eq, Structural)]
pub enum ChildPoll {
    Running,
    Exited { success: bool },
    /// It can no longer be waited for.
    Lost,
}

/// The direct children that have to be waited for, by number.
#[derive(Debug)]
pub struct Reaper {
    pub children: Vec<u64>,
    pub disconnected: bool,
}

/// What the reaper does next.
#[derive(Debug, Clone, Copy, PartialEq, Eq, Structural)]
pub enum ReaperWait {
    /// Nothing is left and nothing more comes.
    Stop,
    /// Until a child is handed over.
    ForChild,
    /// Until a child changes, one is handed over, or the tick is over.
    ForEvent,
}

/// A list without the item at a place, which the last item takes.
pub open spec fn swapped_out(children: Seq<u64>, i: int) -> Seq<u64> {
    children.update(i, children.last()).drop_last()
}

/// The children that are left after a look at those from `i` on, the last one
/// first: each that no longer runs leaves, and the last of the list takes its
/// place.
pub open spec fn swept(children: Seq<u64>, polls: Seq<ChildPoll>, i: int) -> Seq<u64>
    decreases polls.len() - i,
{
    if i >= polls.len() {
        children
    } else {
        let rest = swept(children, polls, i + 1);
        if polls[i] is Running {
            rest
        } else {
            swapped_out(rest, i)
        }
    }
}

/// How many of the children from `i` on still run.
pub open spec fn running_from(polls: Seq<ChildPoll>, i: int) -> nat
    decreases polls.len() - i,
{
    if i >= polls.len() {
        0
    } else {
        running_from(polls, i + 1) + (if polls[i] is Running {
            1nat
        } else {
            0nat
        })
    }
}

/// Whether a child is among those from `i` on that still run.
pub open spec fn runs_from(children: Seq<u64>, polls: Seq<ChildPoll>, i: int, child: u64) -> bool {
    exists|j: int| i <= j < polls.len() && #[trigger] children[j] == child && polls[j] is Running
}

proof fn swept_keeps_the_front(children: Seq<u64>, polls: Seq<ChildPoll>, i: int)
    requires
        children.len() == polls.len(),
        0 <= i <= polls.len(),
    ensures
        swept(children, polls, i).len() == i + running_from(polls, i),
        forall|k: int| 0 <= k < i ==> #[trigger] swept(children, polls, i)[k] == children[k],
    decreases polls.len() - i,
{
    if i < polls.len() {
        swept_keeps_the_front(children, polls, i + 1);
    }
}

proof fn swept_holds(children: Seq<u64>, polls: Seq<ChildPoll>, i: int, child: u64)
    requires
        children.len() == polls.len(),
        0 <= i <= polls.len(),
    ensures
        swept(children, polls, i).skip(i).contains(child) <==> runs_from(
            children,
            polls,
            i,
            child,
        ),
    decreases polls.len() - i,
{
    let after = swept(children, polls, i);
    if i == polls.len() {
        assert(after.skip(i).len() == 0);
    } else {
        swept_holds(children, polls, i + 1, child);
        swept_keeps_the_front(children, polls, i + 1);
        let before = swept(children, polls, i + 1);
        let tail = before.skip(i + 1);
        assert(before[i] == children[i]);
        assert(runs_from(children, polls, i, child) <==> runs_from(children, polls, i + 1, child)
            || (polls[i] is Running && children[i] == child));
        if polls[i] is Running {
            assert(after.skip(i) =~= seq![children[i]] + tail);
            front_or_tail(children[i], tail, child);
        } else if tail.len() == 0 {
            assert(after.skip(i) =~= tail);
        } else {
            assert(after.skip(i) =~= seq![tail.last()] + tail.drop_last());
            front_or_tail(tail.last(), tail.drop_last(), child);
            last_or_front(tail, child);
        }
    }
}

proof fn front_or_tail(first: u64, tail: Seq<u64>, child: u64)
    ensures
        (seq![first] + tail).contains(child) <==> first == child || tail.contains(child),
{
    let all = seq![first] + tail;
    assert(all[0] == first);
    if all.contains(child) && first != child {
        let k = choose|k: int| 0 <= k < all.len() && all[k] == child;
        assert(tail[k - 1] == child);
    }
    if tail.contains(child) {
        let k = choose|k: int| 0 <= k < tail.len() && tail[k] == child;
        assert(all[k + 1] == child);
    }
}

proof fn last_or_front(list: Seq<u64>, child: u64)
    requires
        list.len() > 0,
    ensures
        list.contains(child) <==> list.last() == child || list.drop_last().contains(child),
{
    let front = list.drop_last();
    assert(list[list.len() - 1] == list.last());
    if list.contains(child) && list.last() != child {
        let k = choose|k: int| 0 <= k < list.len() && list[k] == child;
        assert(front[k] == child);
    }
    if front.contains(child) {
        let k = choose|k: int| 0 <= k < front.len() && front[k] == child;
        assert(list[k] == child);
    }
}

/// The children that are left are those that still run: none of them is lost,
/// and none that ended stays.
pub proof fn only_the_ended_are_reaped(children: Seq<u64>, polls: Seq<ChildPoll>, child: u64)
    requires
        children.len() == polls.len(),
    ensures
        swept(children, polls, 0).len() == running_from(polls, 0),
        swept(children, polls, 0).contains(child) <==> runs_from(children, polls, 0, child),
{
    swept_keeps_the_front(children, polls, 0);
    swept_holds(children, polls, 0, child);
    assert(swept(children, polls, 0).skip(0) =~= swept(children, polls, 0));
}

impl Reaper {
    pub fn new() -> (r: Self)
        ensures
            r.children@.len() == 0,
            !r.disconnected,
    {
        Reaper { children: Vec::new(), disconnected: false }
    }

    /// How the reaper waits.
    pub fn next_wait(&self) -> (r: ReaperWait)
        ensures
            r == (if self.children@.len() > 0 {
                ReaperWait::ForEvent
            } else if self.disconnected {
                ReaperWait::Stop
            } else {
                ReaperWait::ForChild
            }),
    {
        if self.children.len() > 0 {
            ReaperWait::ForEvent
        } else if self.disconnected {
            ReaperWait::Stop
        } else {
            ReaperWait::ForChild
        }
    }

    /// A child is handed over.
    pub fn adopt(&mut self, child: u64)
        ensures
            final(self).children@ == old(self).children@.push(child),
            final(self).disconnected == old(self).disconnected,
    {
        self.children.push(child);
    }

    /// Nothing more is handed over.
    pub fn disconnect(&mut self)
        ensures
            final(self).children@ == old(self).children@,
            final(self).disconnected,
    {
        self.disconnected = true;
    }

    /// After a look at every child: those that exited or were lost leave, and
    /// each of them gives back its place. The number of them is returned.
    pub fn reap_children(&mut self, polls: &Vec<ChildPoll>, places: &mut usize) -> (r: usize)
        requires
            polls@.len() == old(self).children@.len(),
            *old(places) >= old(self).children@.len(),
        ensures
            final(self).children@ == swept(old(self).children@, polls@, 0),
            final(self).disconnected == old(self).disconnected,
            r == old(self).children@.len() - final(self).children@.len(),
            *final(places) == *old(places) - r,
    {
        let ghost all = self.children@;
        let mut removed: usize = 0;
        let mut i: usize = polls.len();
        while i > 0
            invariant
                i <= polls.len(),
                polls@.len() == all.len(),
                self.disconnected == old(self).disconnected,
                self.children@ == swept(all, polls@, i as int),
                self.children@.len() + removed == all.len(),
                self.children@.len() >= i,
            decreases i,
        {
            i = i - 1;
            proof {
                swept_keeps_the_front(all, polls@, i + 1);
            }
            if !matches!(polls[i], ChildPoll::Running) {
                let ghost before = self.children@;
                let _gone = self.children.swap_remove(i);
                assert(self.children@ =~= swapped_out(before, i as int));
                removed = removed + 1;
            }
        }
        *places = *places - removed;
        removed
    }
}

/// Whether a direct launch may still be made, and what becomes of its place.
#[derive(Debug, Clone, Copy, PartialEq, Eq, Structural)]
pub enum DirectOutcome {
    /// The child runs and the reaper has it, with its place.
    Launched,
    /// The child was not started; its place is given back.
    NotStarted,
    /// The reaper could not take the child: it is killed and waited for, and
    /// its place is given back.
    Abandoned,
}

/// What a direct launch came to: the result, and how many places are taken.
pub fn finish_direct(
    outcome: DirectOutcome,
    program: &str,
    source: String,
    places: &mut usize,
) -> (r: Result<LaunchReceipt, LaunchError>)
    requires
        *old(places) > 0,
    ensures
        *final(places) == (if outcome is Launched {
            *old(places)
        } else {
            (*old(places) - 1) as usize
        }),
        match outcome {
            DirectOutcome::Launched => r == Ok::<LaunchReceipt, LaunchError>(LaunchReceipt::Direct),
            DirectOutcome::NotStarted => match r {
                Err(LaunchError::Spawn { program: named, source: why }) => named@ == program@
                    && why == source,
                _ => false,
            },
            DirectOutcome::Abandoned => r == Err::<LaunchReceipt, LaunchError>(
                LaunchError::ReaperUnavailable,
            ),
        },
{
    match outcome {
        DirectOutcome::Launched => Ok(LaunchReceipt::Direct),
        DirectOutcome::NotStarted => {
            *places = *places - 1;
            Err(LaunchError::Spawn { program: program.to_owned(), source })
        },
        DirectOutcome::Abandoned => {
            *places = *places - 1;
            Err(LaunchError::ReaperUnavailable)
        },
    }
}

/// Whether a path is absolute.
pub open spec fn absolute(path: Seq<char>) -> bool {
    path.len() > 0 && path[0] == '/'
}

/// Whether a path is absolute.
pub fn is_absolute(path: &str) -> (r: bool)
    ensures
        r == absolute(path@),
{
    let v = chars_of(path);
    v.len() > 0 && v[0] == '/'
}

/// A path below a directory, unless it is absolute itself.
pub open spec fn path_from(directory: Seq<char>, path: Seq<char>) -> Seq<char> {
    if absolute(path) {
        path
    } else {
        crate::text::path_joined(directory, path)
    }
}

/// A directory of the search path: an empty one is the current directory, and a
/// relative one is below it.
pub open spec fn search_directory(entry: Seq<char>, cwd: Seq<char>) -> Seq<char> {
    if entry.len() == 0 {
        cwd
    } else {
        path_from(cwd, entry)
    }
}

/// The files that a program name can mean, in order: with a slash in it exactly
/// one; else one in each directory of the search path.
pub open spec fn program_candidates(
    program: Seq<char>,
    path: Option<Seq<char>>,
    cwd: Seq<char>,
) -> Seq<Seq<char>> {
    if program.contains('/') {
        seq![path_from(cwd, program)]
    } else {
        match path {
            None => Seq::empty(),
            Some(search) => {
                let entries = crate::text::split_text(search, ':');
                Seq::new(
                    entries.len(),
                    |i: int| crate::text::path_joined(search_directory(entries[i], cwd), program),
                )
            },
        }
    }
}

fn join_from(directory: &str, path: &str) -> (r: String)
    ensures
        r@ == path_from(directory@, path@),
{
    if is_absolute(path) {
        path.to_owned()
    } else {
        join_path(directory, path)
    }
}

/// Whether a file can be executed as a program.
pub fn executable_file(is_file: bool, mode: u32) -> (r: bool)
    ensures
        r == (is_file && mode & 0o111u32 != 0),
{
    is_file && mode & 0o111u32 != 0
}

/// The files that a program name can mean, in order.
pub fn manager_program_candidates(program: &str, path: Option<&str>, cwd: &str) -> (r: Vec<String>)
    ensures
        crate::text::texts(r@) == program_candidates(
            program@,
            match path {
                Some(search) => Some(search@),
                None => None,
            },
            cwd@,
        ),
{
    let mut out: Vec<String> = Vec::new();
    if holds_char(program, '/') {
        out.push(join_from(cwd, program));
        assert(crate::text::texts(out@) =~= seq![path_from(cwd@, program@)]);
        return out;
    }
    let search = match path {
        None => {
            assert(crate::text::texts(out@) =~= Seq::empty());
            return out;
        },
        Some(search) => search,
    };
    let entries = split(search, ':');
    let ghost views = crate::text::split_text(search@, ':');
    let mut i: usize = 0;
    while i < entries.len()
        invariant
            i <= entries.len(),
            views == crate::text::split_text(search@, ':'),
            crate::text::texts(entries@) == views,
            out@.len() == i,
            forall|k: int|
                0 <= k < i ==> (#[trigger] out@[k])@ == crate::text::path_joined(
                    search_directory(views[k], cwd@),
                    program@,
                ),
        decreases entries.len() - i,
    {
        assert(views[i as int] == entries@[i as int]@);
        let directory = if entries[i].as_str().is_empty() {
            cwd.to_owned()
        } else {
            join_from(cwd, entries[i].as_str())
        };
        out.push(join_path(directory.as_str(), program));
        i = i + 1;
    }
    assert(views.len() == entries@.len());
    assert(crate::text::texts(out@) =~= Seq::new(
        views.len(),
        |k: int| crate::text::path_joined(search_directory(views[k], cwd@), program@),
    ));
    out
}

/// The program to launch, from what each candidate resolved to (none where it
/// is no executable file): the first absolute path.
pub fn resolve_manager_program_from(resolved: &Vec<Option<String>>) -> (r: Option<String>)
    ensures
        match r {
            Some(path) => exists|i: int|
                {
                    &&& 0 <= i < resolved@.len()
                    &&& #[trigger] resolved@[i] == Some(path)
                    &&& absolute(path@)
                    &&& forall|k: int|
                        0 <= k < i ==> (#[trigger] resolved@[k]) is None || !absolute(
                            resolved@[k]->0@,
                        )
                },
            None => forall|k: int|
                0 <= k < resolved@.len() ==> (#[trigger] resolved@[k]) is None || !absolute(
                    resolved@[k]->0@,
                ),
        },
{
    let mut i: usize = 0;
    while i < resolved.len()
        invariant
            i <= resolved.len(),
            forall|k: int|
                0 <= k < i ==> (#[trigger] resolved@[k]) is None || !absolute(resolved@[k]->0@),
        decreases resolved.len() - i,
    {
        if let Some(path) = &resolved[i] {
            if is_absolute(path.as_str()) {
                assert(resolved@[i as int] == Some(*path));
                return Some(path.clone());
            }
        }
        i = i + 1;
    }
    None
}

/// An ASCII letter or an underscore.
pub open spec fn name_start(c: char) -> bool {
    ('A' <= c && c <= 'Z') || ('a' <= c && c <= 'z') || c == '_'
}

/// Whether a text can be the name of a variable for the service manager.
pub open spec fn variable_name(s: Seq<char>) -> bool {
    &&& s.len() > 0
    &&& name_start(s[0])
    &&& forall|i: int|
        0 < i < s.len() ==> name_start(#[trigger] s[i]) || ('0' <= s[i] && s[i] <= '9')
}

fn is_variable_name(s: &str) -> (r: bool)
    ensures
        r == variable_name(s@),
{
    let v = chars_of(s);
    if v.len() == 0 {
        return false;
    }
    let mut i: usize = 0;
    while i < v.len()
        invariant
            i <= v.len(),
            v@.len() > 0,
            v@ == s@,
            i > 0 ==> name_start(v@[0]),
            forall|k: int|
                0 < k < i ==> name_start(#[trigger] v@[k]) || ('0' <= v@[k] && v@[k] <= '9'),
        decreases v.len() - i,
    {
        let c = v[i];
        let start = (c >= 'A' && c <= 'Z') || (c >= 'a' && c <= 'z') || c == '_';
        let later = start || (c >= '0' && c <= '9');
        if (i == 0 && !start) || !later {
            assert(!name_start(v@[i as int]));
            return false;
        }
        i = i + 1;
    }
    true
}

/// A variable of the environment; none stands for bytes that are no text.
#[derive(Debug)]
pub struct Variable {
    pub name: Option<String>,
    pub value: Option<String>,
}

/// The names of the variables in order, as they come.
pub open spec fn variable_names(environment: Seq<Variable>) -> Seq<Seq<char>> {
    Seq::new(
        environment.len(),
        |i: int|
            match environment[i].name {
                Some(name) => name@,
                None => Seq::empty(),
            },
    )
}

/// The bytes of the names.
pub open spec fn names_bytes(environment: Seq<Variable>) -> nat
    decreases environment.len(),
{
    if environment.len() == 0 {
        0
    } else {
        names_bytes(environment.drop_last()) + crate::text::byte_len(
            crate::text::text_or_empty(environment.last().name),
        )
    }
}

/// Whether a variable can be passed on by name: its name and its value are
/// texts, and its name is one that the service manager accepts.
pub open spec fn passable(v: Variable) -> bool {
    v.name is Some && v.value is Some && variable_name(v.name->0@)
}

/// Whether the whole environment can be passed on by name.
pub open spec fn environment_passable(environment: Seq<Variable>) -> bool {
    &&& forall|i: int| 0 <= i < environment.len() ==> passable(#[trigger] environment[i])
    &&& environment.len() <= MAX_ENVIRONMENT_NAMES
    &&& names_bytes(environment) <= MAX_ENVIRONMENT_NAME_BYTES
}

proof fn names_bytes_grow(environment: Seq<Variable>, n: int)
    requires
        0 <= n <= environment.len(),
    ensures
        names_bytes(environment.take(n)) <= names_bytes(environment),
    decreases environment.len(),
{
    if n == environment.len() {
        assert(environment.take(n) =~= environment);
    } else {
        names_bytes_grow(environment.drop_last(), n);
        assert(environment.drop_last().take(n) =~= environment.take(n));
    }
}

/// The names of all variables, sorted and each once, if the whole environment
/// can be passed on by name. A part of it would not do.
pub fn service_environment_names_from(environment: &Vec<Variable>) -> (r: Option<Vec<String>>)
    ensures
        match r {
            Some(names) => {
                &&& environment_passable(environment@)
                &&& crate::text::texts_increase(crate::text::texts(names@))
                &&& forall|t: Seq<char>| #[trigger]
                    crate::text::texts(names@).contains(t) <==> variable_names(
                        environment@,
                    ).contains(t)
            },
            None => !environment_passable(environment@),
        },
{
    if environment.len() > MAX_ENVIRONMENT_NAMES {
        return None;
    }
    let mut names: Vec<String> = Vec::new();
    let mut bytes: usize = 0;
    let mut i: usize = 0;
    let ghost all = variable_names(environment@);
    while i < environment.len()
        invariant
            i <= environment.len() <= MAX_ENVIRONMENT_NAMES,
            all == variable_names(environment@),
            bytes == names_bytes(environment@.take(i as int)),
            bytes <= MAX_ENVIRONMENT_NAME_BYTES,
            forall|k: int| 0 <= k < i ==> passable(#[trigger] environment@[k]),
            crate::text::texts_increase(crate::text::texts(names@)),
            forall|t: Seq<char>| #[trigger]
                crate::text::texts(names@).contains(t) <==> all.take(i as int).contains(t),
        decreases environment.len() - i,
    {
        let variable = &environment[i];
        proof {
            assert(environment@.take(i + 1).drop_last() =~= environment@.take(i as int));
            names_bytes_grow(environment@, i + 1);
        }
        let name = match (&variable.name, &variable.value) {
            (Some(name), Some(_)) => name,
            _ => {
                assert(!passable(environment@[i as int]));
                return None;
            },
        };
        if !is_variable_name(name.as_str()) {
            assert(!passable(environment@[i as int]));
            return None;
        }
        let own: usize = len_bytes(name.as_str());
        if own > MAX_ENVIRONMENT_NAME_BYTES - bytes {
            return None;
        }
        bytes = bytes + own;
        let ghost before = crate::text::texts(names@);
        insert_text(&mut names, name.clone());
        proof {
            let less = all.take(i as int);
            let more = all.take(i + 1);
            assert(more =~= less.push(name@));
            assert forall|t: Seq<char>| #[trigger]
                crate::text::texts(names@).contains(t) <==> more.contains(t) by {
                if less.contains(t) {
                    let k = choose|k: int| 0 <= k < less.len() && less[k] == t;
                    assert(more[k] == t);
                }
                if t == name@ {
                    assert(more[i as int] == t);
                }
                if more.contains(t) {
                    let k = choose|k: int| 0 <= k < more.len() && more[k] == t;
                    if k < i {
                        assert(less[k] == t);
                    }
                }
                assert(before.contains(t) <==> less.contains(t));
            }
        }
        i = i + 1;
    }
    proof {
        assert(environment@.take(i as int) =~= environment@);
        assert(all.take(i as int) =~= all);
    }
    Some(names)
}

/// The bytes of an argument vector are those of its arguments together.
pub proof fn argument_bytes_add_up(argv: Seq<String>, more: Seq<String>, one: String)
    ensures
        argv_bytes(Seq::empty()) == 0,
        argv_bytes(seq![one]) == crate::text::byte_len(one@),
        argv_bytes(argv + more) == argv_bytes(argv) + argv_bytes(more),
    decreases more.len(),
{
    reveal_with_fuel(argv_bytes, 2);
    assert(seq![one].drop_last() =~= Seq::empty());
    if more.len() == 0 {
        assert(argv + more =~= argv);
    } else {
        argument_bytes_add_up(argv, more.drop_last(), one);
        assert((argv + more).drop_last() =~= argv + more.drop_last());
    }
}

/// An argument vector is taken exactly if it names a program and has at most so
/// many entries and bytes; it counts as one request with all its entries.
pub proof fn argument_limits(argv: Seq<String>)
    ensures
        cost_of(argv) is Ok <==> argv.len() > 0 && argv[0]@.len() > 0 && argv.len() <= 4096
            && argv_bytes(argv) <= 262144,
        cost_of(argv) is Ok ==> cost_of(argv)->Ok_0.requests == 1 && cost_of(argv)->Ok_0.entries
            == argv.len() && cost_of(argv)->Ok_0.bytes == argv_bytes(argv),
        cost_of(argv) == Err::<ArgvCost, LaunchError>(LaunchError::EmptyArgv) <==> argv.len() == 0
            || argv[0]@.len() == 0,
{
}

/// A batch costs what its argument vectors cost together, and none of it is taken
/// unless each of them could be.
pub proof fn batch_costs_add_up(batch: Seq<Vec<String>>, n: nat)
    requires
        n < batch.len(),
    ensures
        prefix_cost(batch, 0) == Ok::<ArgvCost, LaunchError>(
            ArgvCost { requests: 0, entries: 0, bytes: 0 },
        ),
        prefix_cost(batch, n + 1) is Ok ==> {
            let before = prefix_cost(batch, n)->Ok_0;
            let after = prefix_cost(batch, n + 1)->Ok_0;
            &&& prefix_cost(batch, n) is Ok
            &&& cost_of(batch[n as int]@) is Ok
            &&& after.requests == before.requests + 1
            &&& after.entries == before.entries + batch[n as int]@.len()
            &&& after.bytes == before.bytes + argv_bytes(batch[n as int]@)
        },
        batch_cost(batch) is Ok ==> prefix_cost(batch, batch.len()) == batch_cost(batch),
{
}

/// A batch that is taken counts one request for each of its argument vectors,
/// each of which would be taken alone, and keeps the limits of a batch.
pub proof fn batch_limits(batch: Seq<Vec<String>>, i: int)
    requires
        batch_cost(batch) is Ok,
        0 <= i < batch.len(),
    ensures
        batch_cost(batch)->Ok_0.requests == batch.len(),
        0 < batch.len() <= 64,
        batch_cost(batch)->Ok_0.entries <= 32768,
        batch_cost(batch)->Ok_0.bytes <= 4194304,
        cost_of(batch[i]@) is Ok,
{
    prefix_counts_requests(batch, batch.len(), i);
}

proof fn prefix_counts_requests(batch: Seq<Vec<String>>, n: nat, i: int)
    requires
        n <= batch.len(),
        prefix_cost(batch, n) is Ok,
    ensures
        prefix_cost(batch, n)->Ok_0.requests == n,
        0 <= i < n ==> cost_of(batch[i]@) is Ok,
    decreases n,
{
    if n > 0 {
        prefix_counts_requests(batch, (n - 1) as nat, i);
    }
}

/// The cost of two is the sum of their costs.
pub proof fn costs_add_up(a: ArgvCost, b: ArgvCost)
    ensures
        cost_sum(a, b) is Some ==> {
            let sum = cost_sum(a, b)->0;
            &&& sum.requests == a.requests + b.requests
            &&& sum.entries == a.entries + b.entries
            &&& sum.bytes == a.bytes + b.bytes
        },
        cost_sum(a, b) is None <==> a.requests + b.requests > usize::MAX || a.entries + b.entries
            > usize::MAX || a.bytes + b.bytes > usize::MAX,
        cost_sum(a, b) == cost_sum(b, a),
{
}

/// A batch that is submitted is queued whole, behind what is queued, each of its
/// argument vectors as it was given and under the ticket that is handed back for
/// it; or the queue stays as it was.
pub proof fn submitted_batches_are_queued_whole(
    queue: LaunchQueue,
    first_ticket: u64,
    batch: Seq<Vec<String>>,
    cost: ArgvCost,
    after: LaunchService,
    result: Result<Vec<LaunchTicket>, LaunchError>,
    i: int,
)
    requires
        batch_submitted(queue, first_ticket, batch, cost, after, result),
        0 <= i < batch.len(),
    ensures
        after.workers is Running,
        result is Ok <==> !queue.stopped && queue.cost.requests + cost.requests
            <= queue.max_requests && queue.cost.entries + cost.entries <= queue.max_entries
            && queue.cost.bytes + cost.bytes <= queue.max_bytes,
        result is Err ==> after.workers->Running_0 == queue && after.next_ticket == first_ticket,
        result is Ok ==> {
            let jobs = after.workers->Running_0.jobs@;
            let job = jobs[queue.jobs@.len() + i];
            &&& jobs.len() == queue.jobs@.len() + batch.len()
            &&& forall|k: int| 0 <= k < queue.jobs@.len() ==> #[trigger] jobs[k] == queue.jobs@[k]
            &&& job.argv == batch[i]
            &&& job.ticket.id == first_ticket + i
            &&& job.cost.requests == 1
            &&& job.cost.entries == batch[i]@.len()
            &&& job.cost.bytes == argv_bytes(batch[i]@)
            &&& result->Ok_0@[i] == job.ticket
            &&& after.next_ticket == first_ticket + batch.len()
        },
{
    if result is Ok {
        let jobs = after.workers->Running_0.jobs@;
        let n = queue.jobs@.len() as int;
        assert(jobs.skip(n)[i] == jobs[n + i]);
        assert(cost_of(batch[i]@) == Ok::<ArgvCost, LaunchError>(jobs.skip(n)[i].cost));
        assert(result->Ok_0@[i].id == first_ticket + i);
        assert forall|k: int| 0 <= k < n implies #[trigger] jobs[k] == queue.jobs@[k] by {
            assert(jobs.take(n)[k] == jobs[k]);
        }
    }
}

/// One submission is queued behind what is queued, with its whole argument
/// vector.
pub proof fn submitted_launches_are_queued_whole(
    queue: LaunchQueue,
    next_ticket: u64,
    argv: Vec<String>,
    cost: ArgvCost,
    after: LaunchService,
    result: Result<LaunchTicket, LaunchError>,
)
    requires
        launch_submitted(queue, next_ticket, argv, cost, after, result),
    ensures
        after.workers is Running,
        result is Ok <==> !queue.stopped && queue.cost.requests + cost.requests
            <= queue.max_requests && queue.cost.entries + cost.entries <= queue.max_entries
            && queue.cost.bytes + cost.bytes <= queue.max_bytes,
        result is Err ==> after.workers->Running_0 == queue && after.next_ticket == next_ticket,
        result is Ok ==> {
            let jobs = after.workers->Running_0.jobs@;
            &&& jobs.len() == queue.jobs@.len() + 1
            &&& jobs.drop_last() == queue.jobs@
            &&& jobs.last().argv == argv
            &&& jobs.last().ticket.id == next_ticket
            &&& result->Ok_0.id == next_ticket
            &&& after.next_ticket == next_ticket + 1
        },
{
}

/// There are two workers for each processor, but no fewer and no more than the
/// limits; and room for so many requests for each of them.
pub proof fn worker_limits(parallelism: Option<usize>)
    ensures
        2 <= worker_count(parallelism) <= 32,
        parallelism is Some && 1 <= parallelism->0 <= 16 ==> worker_count(parallelism) == 2
            * parallelism->0,
        parallelism is Some && parallelism->0 > 16 ==> worker_count(parallelism) == 32,
        parallelism is None ==> worker_count(parallelism) == 2,
{
}

/// A program is handed to the service manager with the manager's options, a
/// variable of the environment for each name, and then, behind `--`, the program
/// with its arguments as they are.
pub proof fn service_command_layout(
    program: Seq<char>,
    arguments: Seq<Seq<char>>,
    names: Seq<Seq<char>>,
    i: int,
)
    ensures
        ({
            let command = service_argv(program, arguments, names);
            let n = names.len() as int;
            &&& command.len() == 9 + n + arguments.len()
            &&& command[0] == "systemd-run"@
            &&& command[1] == "--user"@
            &&& command[2] == "--collect"@
            &&& command[3] == "--quiet"@
            &&& command[4] == "--service-type=exec"@
            &&& command[5] == "--expand-environment=no"@
            &&& command[6] == "--same-dir"@
            &&& 0 <= i < n ==> command[7 + i] == "--setenv="@ + names[i]
            &&& command[7 + n] == "--"@
            &&& command[8 + n] == program
            &&& 0 <= i < arguments.len() ==> command[9 + n + i] == arguments[i]
        }),
{
}

/// A change of what is known of the service manager makes the answer of a probe
/// that was begun before count for nothing, unless that probe still runs.
pub proof fn old_probes_are_outdated(c: UserServiceCapability, state: CapabilityState)
    ensures
        c.replaced(state).state == state,
        c.replaced(state).probe_running == c.probe_running,
        c.replaced(state).probe_generation == c.probe_generation <==> c.probe_running,
        next_generation(c.probe_generation) != c.probe_generation,
        c.probe_generation < u64::MAX ==> next_generation(c.probe_generation)
            == c.probe_generation + 1,
{
}

/// A probe begins exactly if none runs and nothing is known, or a failure is old
/// enough.
pub proof fn when_a_probe_begins(c: UserServiceCapability, now: u64)
    ensures
        c.state is Available || c.state is Probing || c.probe_running ==> !c.may_probe(now),
        c.state is Unknown && !c.probe_running ==> c.may_probe(now),
        c.state is Unavailable && !c.probe_running ==> c.may_probe(now) == (
        c.state->Unavailable_retry_at <= now),
        now + 30000 <= u64::MAX ==> failed_at(now)->Unavailable_retry_at == now + 30000,
        failed_at(now) is Unavailable,
{
}

/// A program with a slash in its name is looked for at that place only, seen from
/// the current directory; another one in every directory of the search path, in
/// order, where an empty entry is the current directory.
pub proof fn where_programs_are_looked_for(
    program: Seq<char>,
    path: Option<Seq<char>>,
    cwd: Seq<char>,
    i: int,
)
    ensures
        ({
            let places = program_candidates(program, path, cwd);
            let entries = crate::text::split_text(path->0, ':');
            &&& program.contains('/') ==> places.len() == 1
            &&& program.contains('/') && program[0] == '/' ==> places[0] == program
            &&& program.contains('/') && program[0] != '/' ==> places[0]
                == crate::text::path_joined(cwd, program)
            &&& !program.contains('/') && path is None ==> places.len() == 0
            &&& !program.contains('/') && path is Some ==> places.len() == entries.len()
            &&& !program.contains('/') && path is Some && 0 <= i < entries.len() ==> places[i]
                == crate::text::path_joined(
                if entries[i].len() == 0 {
                    cwd
                } else if entries[i][0] == '/' {
                    entries[i]
                } else {
                    crate::text::path_joined(cwd, entries[i])
                },
                program,
            )
        }),
{
}

/// The name of a variable is made of letters, digits and underscores of ASCII,
/// and begins with no digit.
pub proof fn variable_names_are_plain(s: Seq<char>)
    ensures
        variable_name(s) <==> s.len() > 0 && !('0' <= s[0] && s[0] <= '9') && forall|i: int|
            0 <= i < s.len() ==> ({
                let c = #[trigger] s[i];
                c == '_' || ('0' <= c && c <= '9') || ('a' <= c && c <= 'z') || ('A' <= c && c
                    <= 'Z')
            }),
{
    if s.len() > 0 && !('0' <= s[0] && s[0] <= '9') && forall|i: int|
        0 <= i < s.len() ==> ({
            let c = #[trigger] s[i];
            c == '_' || ('0' <= c && c <= '9') || ('a' <= c && c <= 'z') || ('A' <= c && c <= 'Z')
        }) {
        assert forall|i: int| 0 < i < s.len() implies name_start(#[trigger] s[i]) || ('0' <= s[i]
            && s[i] <= '9') by {}
    }
}

/// An environment is handed on exactly if every variable has a plain name and a
/// value that is text, and there are not too many of them or too long.
pub proof fn which_environments_are_handed_on(environment: Seq<Variable>)
    ensures
        environment_passable(environment) <==> environment.len() <= 4096 && names_bytes(environment)
            <= 262144 && forall|i: int|
            0 <= i < environment.len() ==> ({
                let v = #[trigger] environment[i];
                v.name is Some && v.value is Some && variable_name(v.name->0@)
            }),
{
    if forall|i: int|
        0 <= i < environment.len() ==> ({
            let v = #[trigger] environment[i];
            v.name is Some && v.value is Some && variable_name(v.name->0@)
        }) {
        assert forall|i: int| 0 <= i < environment.len() implies passable(
            #[trigger] environment[i],
        ) by {}
    }
    if environment_passable(environment) {
        assert forall|i: int| 0 <= i < environment.len() implies ({
            let v = #[trigger] environment[i];
            v.name is Some && v.value is Some && variable_name(v.name->0@)
        }) by {
            assert(passable(environment[i]));
        }
    }
}

/// A queue counts the requests, entries and bytes of all its jobs.
pub proof fn queued_costs_add_up(jobs: Seq<LaunchJob>, job: LaunchJob)
    ensures
        jobs_requests(Seq::empty()) == 0 && jobs_entries(Seq::empty()) == 0 && jobs_bytes(
            Seq::empty(),
        ) == 0,
        jobs_requests(seq![job] + jobs) == job.cost.requests + jobs_requests(jobs),
        jobs_entries(seq![job] + jobs) == job.cost.entries + jobs_entries(jobs),
        jobs_bytes(seq![job] + jobs) == job.cost.bytes + jobs_bytes(jobs),
{
    assert((seq![job] + jobs).drop_first() =~= jobs);
}

/// A fresh queue is empty and open, and has room for four requests for each
/// worker, but at least sixty-four and at most a hundred and twenty-eight.
pub proof fn room_of_a_fresh_queue(queue: LaunchQueue, threads: int)
    requires
        is_fresh(queue, threads),
    ensures
        queue.jobs@.len() == 0,
        !queue.stopped,
        queue.cost.requests == 0 && queue.cost.entries == 0 && queue.cost.bytes == 0,
        threads <= 16 ==> queue.max_requests == 64,
        16 <= threads <= 32 ==> queue.max_requests == 4 * threads,
        threads >= 32 ==> queue.max_requests == 128,
        queue.max_entries == 32768,
        queue.max_bytes == 4194304,
{
}

/// Workers are started once: with the first submission, where none were started.
/// A running queue takes the submission as it is; where workers are unavailable
/// none does.
pub proof fn workers_start_once(
    workers: Workers,
    parallelism: Option<usize>,
    queue: LaunchQueue,
)
    ensures
        workers is NotStarted <==> threads_owed(workers, parallelism) is Some,
        workers is NotStarted ==> threads_owed(workers, parallelism)->0 == worker_count(parallelism),
        workers is Running ==> (takes_submissions(workers, parallelism, queue)
            <==> workers->Running_0 == queue),
        workers is Unavailable ==> !takes_submissions(workers, parallelism, queue),
        workers is NotStarted && takes_submissions(workers, parallelism, queue)
            ==> queue.jobs@.len() == 0 && !queue.stopped,
{
    worker_limits(parallelism);
}

/// What a queue and its limits say when something is refused.
pub proof fn refusals_name_the_limits(queue: LaunchQueue, a: usize, b: usize)
    ensures
        queue.full() == (LaunchError::QueueFull {
            max_requests: queue.max_requests,
            max_entries: queue.max_entries,
            max_bytes: queue.max_bytes,
        }),
        argv_too_large() == (LaunchError::ArgvTooLarge { max_entries: 4096, max_bytes: 262144 }),
        batch_too_large() == (LaunchError::BatchTooLarge {
            max_requests: 64,
            max_entries: 32768,
            max_bytes: 4194304,
        }),
        a >= b ==> less(a, b) == a - b,
        a < b ==> less(a, b) == 0,
{
}

/// The names of an environment are those of its variables, in order.
pub proof fn names_of_an_environment(environment: Seq<Variable>, v: Variable, i: int)
    ensures
        variable_names(environment).len() == environment.len(),
        0 <= i < environment.len() && environment[i].name is Some ==> variable_names(environment)[i]
            == environment[i].name->0@,
        names_bytes(Seq::empty()) == 0,
        v.name is Some ==> names_bytes(environment.push(v)) == names_bytes(environment)
            + crate::text::byte_len(v.name->0@),
{
    assert(environment.push(v).drop_last() =~= environment);
}

/// What is said of an error names what it is about: the limits, the program, the
/// status, the time.
pub proof fn errors_are_told_in_full(e: LaunchError)
    ensures
        match e {
            LaunchError::EmptyArgv => e.text() ==
                "launch argument vector is empty or has an empty program"@,
            LaunchError::ArgvTooLarge { max_entries, max_bytes } => e.text() ==
                "launch argument vector exceeds the limit of "@
                + crate::text::decimal_text(max_entries as nat) + " entries or "@
                + crate::text::decimal_text(max_bytes as nat) + " bytes"@,
            LaunchError::BatchTooLarge { max_requests, max_entries, max_bytes } => e.text() ==
                "launch batch exceeds the limit of "@
                + crate::text::decimal_text(max_requests as nat) + " requests, "@
                + crate::text::decimal_text(max_entries as nat) + " entries, or "@
                + crate::text::decimal_text(max_bytes as nat) + " bytes"@,
            LaunchError::QueueFull { max_requests, max_entries, max_bytes } => e.text() ==
                "detached launch queue cannot atomically reserve this batch (limits: "@
                + crate::text::decimal_text(max_requests as nat) + " requests, "@
                + crate::text::decimal_text(max_entries as nat) + " entries, "@
                + crate::text::decimal_text(max_bytes as nat) + " bytes)"@,
            LaunchError::WorkerUnavailable => e.text() == "detached launch worker is unavailable"@,
            LaunchError::WorkerStopped => e.text() ==
                "detached launch worker stopped before reporting an outcome"@,
            LaunchError::DirectCapacity { limit } => e.text() == "direct child limit reached ("@
                + crate::text::decimal_text(limit as nat) + ")"@,
            LaunchError::ReaperUnavailable => e.text() == "direct child reaper is unavailable"@,
            LaunchError::Spawn { program, source } => e.text() == "failed to start "@ + program@
                + ": "@ + source@,
            LaunchError::HandoffRejected { status } => e.text() ==
                "transient service handoff exited with "@ + status@,
            LaunchError::HandoffTimeout { millis } => e.text() ==
                "transient service handoff acknowledgement timed out after "@
                + crate::text::decimal_text(millis as nat)
                + " ms; the service may already have been accepted and was not retried"@,
            LaunchError::HandoffWait { source } => e.text() ==
                "transient service handoff failed: "@ + source@,
        },
{
}

} // verus!
