//! Reading what a command prints, within a time and a size.

use crate::text::decimal;
use vstd::prelude::*;
use vstd::string::*;

verus! {

/// The most bytes that are read of each output of a command.
pub const MAX_CAPTURE_BYTES: usize = 16777216;

/// The most bytes that are read at once.
pub const READ_BYTES: usize = 16384;

/// How long the outputs of a command may stay open after it has ended, in
/// milliseconds.
pub const COLLECT_GRACE_MILLIS: u64 = 100;

/// The complaint about an output that is too large.
pub open spec fn too_large(label: Seq<char>) -> Seq<char> {
    "inventory "@ + label + " exceeded "@ + crate::text::decimal_text(MAX_CAPTURE_BYTES as nat)
        + " bytes"@
}

fn too_large_message(label: &str) -> (r: String)
    ensures
        r@ == too_large(label@),
{
    let mut message = "inventory ".to_owned();
    message.append(label);
    message.append(" exceeded ");
    message.append(decimal(MAX_CAPTURE_BYTES as u128).as_str());
    message.append(" bytes");
    message
}

/// How many bytes may be read next, having read some: one more than the limit in
/// all, so that an output beyond it shows.
pub fn next_read(read: usize, label: &str) -> (r: Result<usize, String>)
    ensures
        match r {
            Ok(take) => {
                &&& read <= MAX_CAPTURE_BYTES
                &&& 0 < take <= READ_BYTES
                &&& take == (if MAX_CAPTURE_BYTES + 1 - read <= READ_BYTES {
                    MAX_CAPTURE_BYTES + 1 - read
                } else {
                    READ_BYTES as int
                })
            },
            Err(message) => read > MAX_CAPTURE_BYTES && message@ == too_large(label@),
        },
        r is Ok <==> read <= 16777216,
        r is Ok ==> 0 < r->Ok_0 <= 16384 && read + r->Ok_0 <= 16777217,
{
    if read > MAX_CAPTURE_BYTES {
        return Err(too_large_message(label));
    }
    let remaining: usize = MAX_CAPTURE_BYTES + 1 - read;
    if remaining <= READ_BYTES {
        Ok(remaining)
    } else {
        Ok(READ_BYTES)
    }
}

/// What a read gave.
#[derive(Debug)]
pub enum ReadOutcome {
    /// So many bytes; none at the end of the output.
    Bytes(usize),
    /// Nothing for now.
    WouldBlock,
    Interrupted,
    Failed(String),
}

/// What to do after a read.
#[derive(Debug)]
pub enum Drain {
    /// The output has ended.
    Ended,
    /// Nothing more can be read for now.
    Pause,
    ReadOn,
    Fail(String),
}

/// What to do after a read. `read` is the number of bytes so far, those of this
/// read included.
pub fn drain_capture(outcome: ReadOutcome, read: usize, label: &str) -> (r: Drain)
    ensures
        match outcome {
            ReadOutcome::Bytes(n) => if n == 0 {
                r is Ended
            } else if read > MAX_CAPTURE_BYTES {
                r is Fail && r->Fail_0@ == too_large(label@)
            } else {
                r is ReadOn
            },
            ReadOutcome::WouldBlock => r is Pause,
            ReadOutcome::Interrupted => r is ReadOn,
            ReadOutcome::Failed(error) => r is Fail && r->Fail_0@ == "could not read inventory "@
                + label@ + ": "@ + error@,
        },
        r is Fail <==> outcome is Failed || (outcome is Bytes && outcome->Bytes_0 > 0 && read
            > 16777216),
{
    match outcome {
        ReadOutcome::Bytes(n) => if n == 0 {
            Drain::Ended
        } else if read > MAX_CAPTURE_BYTES {
            Drain::Fail(too_large_message(label))
        } else {
            Drain::ReadOn
        },
        ReadOutcome::WouldBlock => Drain::Pause,
        ReadOutcome::Interrupted => Drain::ReadOn,
        ReadOutcome::Failed(error) => {
            let mut message = "could not read inventory ".to_owned();
            message.append(label);
            message.append(": ");
            message.append(error.as_str());
            Drain::Fail(message)
        },
    }
}

/// A command that runs, seen from the times at which it is looked at, in
/// milliseconds since it started.
#[derive(Debug)]
pub struct Running {
    pub timeout: u64,
    pub exited: bool,
    /// Until when its outputs are waited for, once it has ended.
    pub collect_until: u64,
}

/// What was seen of a command.
#[derive(Debug)]
pub enum Seen {
    /// It has ended, by now or before.
    Exited,
    StillRuns,
    /// It could not be asked.
    Failed(String),
}

/// What to do about a command.
#[derive(Debug)]
pub enum Look {
    /// Read its outputs.
    Read,
    /// Stop it, with what it started, and give up.
    StopAndFail(String),
}

/// What to do about a command after its outputs were read as far as they go.
#[derive(Debug)]
pub enum Verdict {
    /// Its outputs are complete.
    Done,
    /// Look again in a moment.
    Wait,
    /// Stop it, with what it started, and give up.
    StopAndFail(String),
    /// Give up. It has ended, so there is nothing to stop.
    Fail(String),
}

/// A time, or the last one there is.
pub open spec fn later(now: u64, millis: u64) -> u64 {
    if now + millis <= u64::MAX {
        (now + millis) as u64
    } else {
        now
    }
}

impl Running {
    pub fn start(timeout: u64) -> (r: Self)
        ensures
            r.timeout == timeout,
            !r.exited,
    {
        Running { timeout, exited: false, collect_until: 0 }
    }

    /// Takes in whether the command has ended. From then on its outputs are
    /// waited for until its time is up, and for a moment in any case.
    pub fn look(&mut self, name: &str, seen: Seen, now: u64) -> (r: Look)
        ensures
            final(self).timeout == old(self).timeout,
            match seen {
                Seen::Failed(error) => if old(self).exited {
                    r is Read && *final(self) == *old(self)
                } else {
                    &&& r is StopAndFail && r->StopAndFail_0@ == name@ + ": "@ + error@
                    &&& *final(self) == *old(self)
                },
                Seen::Exited => {
                    &&& r is Read
                    &&& final(self).exited
                    &&& !old(self).exited ==> final(self).collect_until == (if later(
                        now,
                        COLLECT_GRACE_MILLIS,
                    ) > old(self).timeout {
                        later(now, COLLECT_GRACE_MILLIS)
                    } else {
                        old(self).timeout
                    })
                    &&& old(self).exited ==> *final(self) == *old(self)
                },
                Seen::StillRuns => r is Read && *final(self) == *old(self),
            },
    {
        if self.exited {
            return Look::Read;
        }
        match seen {
            Seen::Failed(error) => {
                let mut message = name.to_owned();
                message.append(": ");
                message.append(error.as_str());
                Look::StopAndFail(message)
            },
            Seen::Exited => {
                let grace: u64 = match now.checked_add(COLLECT_GRACE_MILLIS) {
                    Some(at) => at,
                    None => now,
                };
                self.exited = true;
                self.collect_until = if grace > self.timeout {
                    grace
                } else {
                    self.timeout
                };
                Look::Read
            },
            Seen::StillRuns => Look::Read,
        }
    }

    /// What to do after the outputs were read as far as they go.
    pub fn judge(
        &self,
        name: &str,
        drained: Result<bool, String>,
        now: u64,
    ) -> (r: Verdict)
        ensures
            match drained {
                Err(error) => if self.exited {
                    r is Fail && r->Fail_0@ == name@ + ": "@ + error@
                } else {
                    r is StopAndFail && r->StopAndFail_0@ == name@ + ": "@ + error@
                },
                Ok(complete) => judged(*self, name@, complete, now, r),
            },
    {
        match drained {
            Err(error) => {
                let mut message = name.to_owned();
                message.append(": ");
                message.append(error.as_str());
                if self.exited {
                    Verdict::Fail(message)
                } else {
                    Verdict::StopAndFail(message)
                }
            },
            Ok(complete) => if self.exited {
                if complete {
                    Verdict::Done
                } else if now >= self.collect_until {
                    let mut message = name.to_owned();
                    message.append(": inventory output remained open after the command exited");
                    Verdict::Fail(message)
                } else {
                    Verdict::Wait
                }
            } else if now >= self.timeout {
                let mut message = "inventory timed out after ".to_owned();
                message.append(decimal(self.timeout as u128).as_str());
                message.append(" ms");
                Verdict::StopAndFail(message)
            } else {
                Verdict::Wait
            },
        }
    }
}

/// What a verdict is on a command whose outputs were read without fail.
pub open spec fn judged(
    running: Running,
    name: Seq<char>,
    complete: bool,
    now: u64,
    verdict: Verdict,
) -> bool {
    if running.exited {
        if complete {
            verdict is Done
        } else if now >= running.collect_until {
            verdict is Fail && verdict->Fail_0@ == name
                + ": inventory output remained open after the command exited"@
        } else {
            verdict is Wait
        }
    } else if now >= running.timeout {
        verdict is StopAndFail && verdict->StopAndFail_0@ == "inventory timed out after "@
            + crate::text::decimal_text(running.timeout as nat) + " ms"@
    } else {
        verdict is Wait
    }
}

/// A command is never waited for beyond its time: looked at when that is up, it
/// is stopped, unless it has ended.
pub proof fn time_limit_holds(running: Running, name: Seq<char>, now: u64)
    requires
        !running.exited,
        now >= running.timeout,
    ensures
        forall|verdict: Verdict, complete: bool|
            #[trigger] judged(running, name, complete, now, verdict) ==> verdict is StopAndFail,
{
}

/// A command is done exactly if it has ended and its outputs are complete. It is
/// waited for while it runs within its time, and after its end for as long as its
/// outputs are collected; stopped only while it runs.
pub proof fn verdicts(
    running: Running,
    name: Seq<char>,
    complete: bool,
    now: u64,
    verdict: Verdict,
)
    requires
        judged(running, name, complete, now, verdict),
    ensures
        verdict is Done <==> running.exited && complete,
        verdict is Fail <==> running.exited && !complete && now >= running.collect_until,
        verdict is StopAndFail <==> !running.exited && now >= running.timeout,
        verdict is Wait <==> (running.exited && !complete && now < running.collect_until) || (
        !running.exited && now < running.timeout),
{
}

/// A later time is that much later, unless no clock goes so far.
pub proof fn later_is_later(now: u64, millis: u64)
    ensures
        later(now, millis) >= now,
        now + millis <= u64::MAX ==> later(now, millis) - now == millis,
        now + millis > u64::MAX ==> later(now, millis) == now,
{
}

/// What is said of an output that is too long names the output and the limit.
pub proof fn long_outputs_are_named(label: Seq<char>)
    ensures
        too_large(label) == "inventory "@ + label + " exceeded "@ + crate::text::decimal_text(
            MAX_CAPTURE_BYTES as nat,
        ) + " bytes"@,
{
}

} // verus!
