//! The agent's polling of the leader: how long it waits after a failed
//! heartbeat, and the commands it retries.

use vstd::prelude::*;

use crate::text::same_text;

verus! {

/// The wait after a failed heartbeat: the current wait doubled, at least
/// `min` and at most `max`.
pub open spec fn next_backoff_spec(cur: u64, min: u64, max: u64) -> int {
    let doubled = cur * 2;
    let at_least = if doubled < min { min as int } else { doubled };
    if at_least > max { max as int } else { at_least }
}

/// The wait after a failed heartbeat, in any unit.
pub fn next_backoff(cur: u64, min: u64, max: u64) -> (res: u64)
    requires
        cur * 2 <= u64::MAX,
    ensures
        res == next_backoff_spec(cur, min, max),
{
    let doubled = cur * 2;
    let at_least = if doubled < min { min } else { doubled };
    if at_least > max { max } else { at_least }
}

/// Once the wait is within `[min, max]` it stays there, and it reaches
/// `max` and remains there after enough failures: each failure doubles it
/// until the cap.
pub proof fn law_backoff_stays_in_bounds(cur: u64, min: u64, max: u64)
    requires
        min <= max,
        min <= cur <= max,
        cur * 2 <= u64::MAX,
    ensures
        min <= next_backoff_spec(cur, min, max) <= max,
        next_backoff_spec(cur, min, max) == if cur * 2 <= max { cur * 2 } else { max as int },
        cur > 0 ==> next_backoff_spec(cur, min, max) >= cur,
{
}

/// How many times a failed command is tried in all.
pub const MAX_COMMAND_RETRIES: u32 = 3;

/// What the leader asks of a workload.
#[derive(Clone, Copy, Debug, PartialEq, Eq, Structural)]
pub enum CommandKind {
    Deploy,
    Stop,
    Unknown,
}

/// The kind of a command's action: `deploy`, `stop`, or another.
pub fn command_kind(action: &str) -> (res: CommandKind)
    ensures
        res == if action@ == "deploy"@ {
            CommandKind::Deploy
        } else if action@ == "stop"@ {
            CommandKind::Stop
        } else {
            CommandKind::Unknown
        },
{
    if same_text(action, "deploy") {
        CommandKind::Deploy
    } else if same_text(action, "stop") {
        CommandKind::Stop
    } else {
        CommandKind::Unknown
    }
}

/// Commands that failed, each with the number of times it was tried.
pub struct RetryQueue<C> {
    entries: Vec<(C, u32)>,
}

/// Every attempt count is between 1 and the retry limit.
pub open spec fn counts_in_range<C>(es: Seq<(C, u32)>) -> bool {
    forall|i: int| 0 <= i < es.len() ==> 1 <= (#[trigger] es[i]).1 <= MAX_COMMAND_RETRIES
}

/// What happens to a command that failed again after `attempts` tries.
#[derive(Clone, Copy, Debug, PartialEq, Eq, Structural)]
pub enum RetryOutcome {
    /// Queued again, with this many tries.
    Requeued(u32),
    /// Dropped: it was tried as often as allowed; the workload is failed.
    Dropped,
}

impl<C> View for RetryQueue<C> {
    type V = Seq<(C, u32)>;

    closed spec fn view(&self) -> Seq<(C, u32)> {
        self.entries@
    }
}

impl<C> RetryQueue<C> {
    /// No failed command.
    pub fn new() -> (res: RetryQueue<C>)
        ensures
            res@ == Seq::<(C, u32)>::empty(),
    {
        RetryQueue { entries: Vec::new() }
    }

    /// A command failed for the first time.
    pub fn enqueue(&mut self, cmd: C)
        ensures
            final(self)@ == old(self)@.push((cmd, 1u32)),
    {
        self.entries.push((cmd, 1));
    }

    /// Take every queued command out, to try each again.
    pub fn take_all(&mut self) -> (res: Vec<(C, u32)>)
        ensures
            res@ == old(self)@,
            final(self)@ == Seq::<(C, u32)>::empty(),
    {
        let mut taken: Vec<(C, u32)> = Vec::new();
        std::mem::swap(&mut taken, &mut self.entries);
        taken
    }

    /// A command tried `attempts` times failed again: it is queued with one
    /// more try, unless that would exceed the limit, when it is dropped.
    pub fn failed_again(&mut self, cmd: C, attempts: u32) -> (res: RetryOutcome)
        requires
            attempts <= MAX_COMMAND_RETRIES,
        ensures
            attempts + 1 > MAX_COMMAND_RETRIES ==> res == RetryOutcome::Dropped && final(self)@ == old(self)@,
            attempts + 1 <= MAX_COMMAND_RETRIES ==> res == RetryOutcome::Requeued((attempts + 1) as u32)
                && final(self)@ == old(self)@.push((cmd, (attempts + 1) as u32)),
    {
        let next = attempts + 1;
        if next > MAX_COMMAND_RETRIES {
            RetryOutcome::Dropped
        } else {
            self.entries.push((cmd, next));
            RetryOutcome::Requeued(next)
        }
    }
}

/// Every operation of the queue keeps each attempt count between 1 and the
/// limit: a command is never tried more often than allowed.
pub proof fn law_attempts_stay_in_range<C>(es: Seq<(C, u32)>, cmd: C, attempts: u32)
    requires
        counts_in_range(es),
        attempts <= MAX_COMMAND_RETRIES,
    ensures
        counts_in_range(es.push((cmd, 1u32))),
        attempts + 1 <= MAX_COMMAND_RETRIES ==> counts_in_range(es.push((cmd, (attempts + 1) as u32))),
        counts_in_range(Seq::<(C, u32)>::empty()),
{
    assert forall|i: int| 0 <= i < es.push((cmd, 1u32)).len() implies 1 <= (#[trigger] es.push((cmd, 1u32))[i]).1
        <= MAX_COMMAND_RETRIES by {
        if i < es.len() {
            assert(es.push((cmd, 1u32))[i] == es[i]);
        }
    }
    if attempts + 1 <= MAX_COMMAND_RETRIES {
        let n = (attempts + 1) as u32;
        assert forall|i: int| 0 <= i < es.push((cmd, n)).len() implies 1 <= (#[trigger] es.push((cmd, n))[i]).1
            <= MAX_COMMAND_RETRIES by {
            if i < es.len() {
                assert(es.push((cmd, n))[i] == es[i]);
            }
        }
    }
}

} // verus!
