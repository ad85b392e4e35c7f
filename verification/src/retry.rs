//! One operation's way through the write queue: attempts, pauses between them and the
//! durability barrier behind a success.

use crate::error::{commit_barrier_error, retriable, Fault, FaultView, StoreError};
use crate::plan::Lane;
use crate::text::{append_decimal, decimal};
use vstd::prelude::*;

verus! {

broadcast use {vstd::string::group_string_axioms, vstd::seq::group_seq_axioms};

/// How often an operation is tried again at most.
pub const MAX_RETRIES: u32 = 5;

/// Where an operation stands in the write queue.
#[derive(Clone, Copy, Debug)]
pub struct QueuedRun {
    /// The name under which contention is reported.
    pub op: &'static str,
    /// How many attempts failed so far.
    pub attempt: u32,
    /// How often the operation may be tried again in all.
    pub retries: u32,
    /// Whether a success waits for the durability barrier.
    pub barrier: bool,
}

/// How an attempt ended.
#[derive(Debug)]
pub enum Attempted {
    /// It succeeded.
    Done,
    /// The database failed.
    Faulted(Fault),
    /// It failed elsewhere, such as in getting a connection.
    Failed(StoreError),
}

/// What to do after an attempt. The write permit of the attempt is still held.
#[derive(Debug)]
pub enum Next {
    /// Wait for the durability barrier, then release the permit.
    AwaitBarrier,
    /// Release the permit and report success.
    Succeed,
    /// Release the permit, report the contention where there is something to report, pause, and
    /// queue again.
    Retry { run: QueuedRun, delay_ms: u64, warning: Option<String> },
    /// Release the permit and report the error.
    Fail(StoreError),
}

/// The pause after the attempt with this number, in milliseconds: it doubles from ten up to
/// the fifth.
pub open spec fn delay_after(attempt: nat) -> nat
    decreases attempt,
{
    if attempt == 0 {
        10
    } else if attempt > 4 {
        delay_after(4)
    } else {
        2 * delay_after((attempt - 1) as nat)
    }
}

/// All pauses before the attempt with this number.
pub open spec fn total_delay(attempt: nat) -> nat
    decreases attempt,
{
    if attempt == 0 {
        0
    } else {
        total_delay((attempt - 1) as nat) + delay_after((attempt - 1) as nat)
    }
}

/// The report of an operation that is tried again.
pub open spec fn contention_report(
    op: Seq<char>,
    attempt: nat,
    message: Seq<char>,
) -> Seq<char> {
    op + " busy/locked, retry "@ + decimal(attempt + 1) + "/"@ + decimal(
        (MAX_RETRIES + 1) as nat,
    ) + " in "@ + decimal(delay_after(attempt)) + "ms: "@ + message
}

/// The pause after an attempt.
fn delay_ms(attempt: u32) -> (d: u64)
    ensures
        d == delay_after(attempt as nat),
        10 <= d <= 160,
{
    proof {
        reveal_with_fuel(delay_after, 7);
    }
    match attempt {
        0 => 10,
        1 => 20,
        2 => 40,
        3 => 80,
        _ => 160,
    }
}

impl QueuedRun {
    /// The counters are within their bounds.
    pub open spec fn wf(self) -> bool {
        self.attempt <= self.retries <= MAX_RETRIES
    }

    /// An operation that is tried again while the database is busy or locked.
    pub fn retried(op: &'static str, barrier: bool) -> (run: QueuedRun)
        ensures
            run.wf(),
            run == (QueuedRun { op, attempt: 0, retries: MAX_RETRIES, barrier }),
    {
        QueuedRun { op, attempt: 0, retries: MAX_RETRIES, barrier }
    }

    /// A write that is tried once.
    pub fn once() -> (run: QueuedRun)
        ensures
            run.wf(),
            run.attempt == 0 && run.retries == 0 && run.barrier,
    {
        QueuedRun { op: "write", attempt: 0, retries: 0, barrier: true }
    }

    /// A write in its lane. Its success waits for the durability barrier.
    pub fn of_write(lane: Lane) -> (run: QueuedRun)
        ensures
            run.wf(),
            run.barrier,
            run.attempt == 0,
            match lane {
                Lane::Retried(name) => run.op == name && run.retries == MAX_RETRIES,
                Lane::Once => run.retries == 0,
            },
    {
        match lane {
            Lane::Retried(name) => QueuedRun::retried(name, true),
            Lane::Once => QueuedRun::once(),
        }
    }

    /// Decides what follows an attempt.
    pub fn after(self, result: Attempted) -> (next: Next)
        requires
            self.wf(),
        ensures
            match result {
                Attempted::Done => if self.barrier {
                    next is AwaitBarrier
                } else {
                    next is Succeed
                },
                Attempted::Faulted(fault) => if retriable(fault@) && self.attempt < self.retries {
                    &&& next matches Next::Retry { run, delay_ms, warning }
                    &&& run.wf()
                    &&& run.op == self.op && run.attempt == self.attempt + 1 && run.retries
                        == self.retries && run.barrier == self.barrier
                    &&& delay_ms == delay_after(self.attempt as nat)
                    &&& match warning {
                        None => self.attempt == 0,
                        Some(text) => self.attempt >= 1 && (fault@ matches FaultView::Unknown(m)
                            && text@ == contention_report(self.op@, self.attempt as nat, m)),
                    }
                } else {
                    next == Next::Fail(StoreError::Database(fault))
                },
                Attempted::Failed(error) => next == Next::Fail(error),
            },
    {
        match result {
            Attempted::Done => if self.barrier {
                Next::AwaitBarrier
            } else {
                Next::Succeed
            },
            Attempted::Faulted(fault) => if fault.is_retriable() && self.attempt < self.retries {
                let warning = if self.attempt >= 1 {
                    Some(self.report(&fault))
                } else {
                    None
                };
                Next::Retry {
                    delay_ms: delay_ms(self.attempt),
                    warning,
                    run: QueuedRun {
                        op: self.op,
                        attempt: self.attempt + 1,
                        retries: self.retries,
                        barrier: self.barrier,
                    },
                }
            } else {
                Next::Fail(StoreError::Database(fault))
            },
            Attempted::Failed(error) => Next::Fail(error),
        }
    }

    /// The report of contention.
    fn report(&self, fault: &Fault) -> (text: String)
        requires
            fault@ is Unknown,
            self.wf(),
        ensures
            fault@ matches FaultView::Unknown(m) && text@ == contention_report(
                self.op@,
                self.attempt as nat,
                m,
            ),
    {
        let mut text: String = self.op.to_owned();
        text.append(" busy/locked, retry ");
        append_decimal(&mut text, self.attempt as u64 + 1);
        text.append("/");
        append_decimal(&mut text, MAX_RETRIES as u64 + 1);
        text.append(" in ");
        append_decimal(&mut text, delay_ms(self.attempt));
        text.append("ms: ");
        if let Fault::Unknown(message) = fault {
            text.append(message);
        }
        text
    }

    /// Decides what follows the durability barrier.
    pub fn after_barrier(self, failure: Option<StoreError>) -> (next: Next)
        ensures
            match failure {
                None => next is Succeed,
                Some(error) => next matches Next::Fail(StoreError::CommitBarrier(e)) && *e.0
                    == error,
            },
    {
        match failure {
            None => Next::Succeed,
            Some(error) => Next::Fail(commit_barrier_error(error)),
        }
    }
}

/// How many attempts an operation makes when the attempts end as listed: it goes on while they
/// end in passing contention and attempts are left.
pub open spec fn attempts_made(faults: Seq<FaultView>, attempt: nat, retries: nat) -> nat
    decreases faults.len(),
{
    if faults.len() == 0 || !retriable(faults[0]) || attempt >= retries {
        1
    } else {
        1 + attempts_made(faults.drop_first(), attempt + 1, retries)
    }
}

/// Contention is ridden out for at most six attempts, whatever the database does.
pub proof fn law_attempts_are_bounded(faults: Seq<FaultView>, attempt: nat)
    requires
        attempt <= MAX_RETRIES,
    ensures
        attempts_made(faults, attempt, MAX_RETRIES as nat) <= MAX_RETRIES - attempt + 1,
    decreases faults.len(),
{
    if faults.len() > 0 && retriable(faults[0]) && attempt < MAX_RETRIES {
        law_attempts_are_bounded(faults.drop_first(), attempt + 1);
    }
}

/// The pauses of an operation that uses up all its attempts add up to 310 milliseconds, and
/// each is at least ten and at most 160.
pub proof fn law_pauses_are_bounded(attempt: nat)
    ensures
        10 <= delay_after(attempt) <= 160,
        attempt <= MAX_RETRIES ==> total_delay(attempt) <= 310,
        total_delay(MAX_RETRIES as nat) == 310,
{
    reveal_with_fuel(delay_after, 7);
    reveal_with_fuel(total_delay, 7);
    if attempt > 4 {
        assert(delay_after(attempt) == delay_after(4));
    }
}

} // verus!
