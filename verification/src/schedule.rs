use crate::signature::{fingerprint, is_noise, noise, signature_of, Baseline, Signature};
use vstd::prelude::*;

verus! {

/// How a request ended.
#[derive(Clone, Copy, Debug)]
pub enum Outcome {
    /// A response came back and its body was read.
    Answered { status: u16, signature: Signature },
    /// The request failed in transport or ran out of time.
    Failed,
}

/// What becomes of a finished request.
#[derive(Clone, Copy, Debug, PartialEq, Eq, Structural)]
pub enum Verdict {
    /// A result line is printed for it.
    Reported,
    /// It looks like the baseline and is counted as filtered.
    Filtered,
    /// It failed; it is counted as processed and leaves no line.
    Dropped,
}

/// How a request ended, from what came back of it: answered where both a
/// status and a body were read, the body measured; failed where either is
/// missing.
pub open spec fn ended(status: Option<u16>, body: Option<Seq<char>>) -> Outcome {
    match (status, body) {
        (Some(code), Some(text)) => Outcome::Answered { status: code, signature: fingerprint(text) },
        _ => Outcome::Failed,
    }
}

/// Turns what came back of a request into its outcome. A request without a
/// status did not get through; one without a body could not be read to its
/// end. Both count as failed.
pub fn outcome_of(status: Option<u16>, body: Option<&str>) -> (outcome: Outcome)
    ensures
        outcome == ended(
            status,
            match body {
                Some(text) => Some(text@),
                None => None,
            },
        ),
{
    match (status, body) {
        (Some(code), Some(text)) => Outcome::Answered { status: code, signature: signature_of(text) },
        _ => Outcome::Failed,
    }
}

/// The verdict on an outcome against a baseline.
pub open spec fn verdict_of(outcome: Outcome, baseline: Set<Signature>) -> Verdict {
    match outcome {
        Outcome::Answered { status, signature } => if noise(signature, baseline) {
            Verdict::Filtered
        } else {
            Verdict::Reported
        },
        Outcome::Failed => Verdict::Dropped,
    }
}

/// Decides what becomes of a finished request. With an empty baseline every
/// answered request is reported.
pub fn classify(outcome: &Outcome, baseline: &Baseline) -> (verdict: Verdict)
    ensures
        verdict == verdict_of(*outcome, baseline@),
{
    match outcome {
        Outcome::Answered { status, signature } => if is_noise(signature, baseline) {
            Verdict::Filtered
        } else {
            Verdict::Reported
        },
        Outcome::Failed => Verdict::Dropped,
    }
}

/// How many requests of a path run may be in flight at once: four for each
/// configured thread.
pub fn path_admission_limit(threads: usize) -> (limit: usize)
    requires
        4 * threads <= usize::MAX,
    ensures
        limit == 4 * threads,
{
    threads * 4
}

/// How many requests of a virtual-host run may be in flight at once: one for
/// each configured thread.
pub fn host_admission_limit(threads: usize) -> (limit: usize)
    ensures
        limit == threads,
{
    threads
}

/// Where a run stands, as plain numbers.
pub struct Progress {
    /// How many requests may be in flight at once.
    pub limit: nat,
    /// How many tasks the run has.
    pub total: nat,
    /// How many tasks were handed out so far.
    pub dispatched: nat,
    /// How many hold an admission slot that they have not given back.
    pub in_flight: nat,
    /// How many have finished, however they ended.
    pub processed: nat,
    /// How many of the finished were filtered as noise.
    pub filtered: nat,
    /// How many of the finished were reported.
    pub reported: nat,
}

/// What holds of a run at every moment.
pub open spec fn valid(p: Progress) -> bool {
    &&& p.in_flight <= p.limit
    &&& p.dispatched <= p.total
    &&& p.processed + p.in_flight == p.dispatched
    &&& p.filtered + p.reported <= p.processed
}

/// A run that has not begun.
pub open spec fn initial(total: nat, limit: nat) -> Progress {
    Progress { limit, total, dispatched: 0, in_flight: 0, processed: 0, filtered: 0, reported: 0 }
}

/// Whether a further task can take a slot: one is left and a slot is free.
pub open spec fn can_acquire(p: Progress) -> bool {
    p.dispatched < p.total && p.in_flight < p.limit
}

/// The run after the next task took a slot.
pub open spec fn acquired(p: Progress) -> Progress {
    Progress { dispatched: p.dispatched + 1, in_flight: p.in_flight + 1, ..p }
}

/// The run after a request in flight finished with `verdict`: its slot is
/// free again and it counts as processed, whatever the verdict.
pub open spec fn settled(p: Progress, verdict: Verdict) -> Progress {
    Progress {
        in_flight: (p.in_flight - 1) as nat,
        processed: p.processed + 1,
        filtered: if verdict == Verdict::Filtered {
            p.filtered + 1
        } else {
            p.filtered
        },
        reported: if verdict == Verdict::Reported {
            p.reported + 1
        } else {
            p.reported
        },
        ..p
    }
}

/// Whether every task has finished.
pub open spec fn finished(p: Progress) -> bool {
    p.processed == p.total
}

/// Something that happens to a run.
pub enum Event {
    /// The next task asks for a slot.
    Acquire,
    /// A request in flight ends with this verdict.
    Settle(Verdict),
}

/// The run after one event. An event that cannot happen (no slot or no task
/// left to take one, nothing in flight to settle) leaves the run as it is.
pub open spec fn after(p: Progress, event: Event) -> Progress {
    match event {
        Event::Acquire => if can_acquire(p) {
            acquired(p)
        } else {
            p
        },
        Event::Settle(verdict) => if p.in_flight > 0 {
            settled(p, verdict)
        } else {
            p
        },
    }
}

/// The run after a sequence of events, in their order.
pub open spec fn after_all(p: Progress, events: Seq<Event>) -> Progress
    decreases events.len(),
{
    if events.len() == 0 {
        p
    } else {
        after(after_all(p, events.drop_last()), events.last())
    }
}

/// The bookkeeping of a run: which task comes next, how many requests hold an
/// admission slot, and the counters of processed and filtered requests.
#[derive(Debug)]
pub struct Scheduler {
    limit: usize,
    total: usize,
    dispatched: usize,
    in_flight: usize,
    processed: usize,
    filtered: usize,
    reported: usize,
}

impl View for Scheduler {
    type V = Progress;

    closed spec fn view(&self) -> Progress {
        Progress {
            limit: self.limit as nat,
            total: self.total as nat,
            dispatched: self.dispatched as nat,
            in_flight: self.in_flight as nat,
            processed: self.processed as nat,
            filtered: self.filtered as nat,
            reported: self.reported as nat,
        }
    }
}

impl Scheduler {
    /// The invariant of a run.
    pub open spec fn wf(&self) -> bool {
        valid(self@)
    }

    /// A run of `total` tasks of which at most `limit` are in flight at once.
    pub fn new(total: usize, limit: usize) -> (run: Scheduler)
        ensures
            run.wf(),
            run@ == initial(total as nat, limit as nat),
    {
        Scheduler {
            limit,
            total,
            dispatched: 0,
            in_flight: 0,
            processed: 0,
            filtered: 0,
            reported: 0,
        }
    }

    /// Gives the next task a slot if one is left and a slot is free, and gives its
    /// position in the enumeration. Otherwise nothing changes.
    pub fn try_acquire(&mut self) -> (position: Option<usize>)
        requires
            old(self).wf(),
        ensures
            final(self).wf(),
            final(self)@ == after(old(self)@, Event::Acquire),
            position is Some <==> can_acquire(old(self)@),
            position is Some ==> position->0 == old(self)@.dispatched,
    {
        if self.dispatched < self.total && self.in_flight < self.limit {
            let position = self.dispatched;
            self.dispatched = self.dispatched + 1;
            self.in_flight = self.in_flight + 1;
            Some(position)
        } else {
            None
        }
    }

    /// Takes in the end of a request in flight: frees its slot, counts it as
    /// processed, and counts it as filtered or reported by the verdict, which
    /// is returned.
    pub fn settle(&mut self, outcome: &Outcome, baseline: &Baseline) -> (verdict: Verdict)
        requires
            old(self).wf(),
            old(self)@.in_flight > 0,
        ensures
            final(self).wf(),
            verdict == verdict_of(*outcome, baseline@),
            final(self)@ == settled(old(self)@, verdict),
            final(self)@ == after(old(self)@, Event::Settle(verdict)),
    {
        let verdict = classify(outcome, baseline);
        self.in_flight = self.in_flight - 1;
        self.processed = self.processed + 1;
        match verdict {
            Verdict::Filtered => {
                self.filtered = self.filtered + 1;
            },
            Verdict::Reported => {
                self.reported = self.reported + 1;
            },
            Verdict::Dropped => {},
        }
        verdict
    }

    /// Whether every task has finished.
    pub fn is_finished(&self) -> (done: bool)
        ensures
            done == finished(self@),
    {
        self.processed == self.total
    }

    /// How many requests may be in flight at once.
    pub fn limit(&self) -> (n: usize)
        ensures
            n == self@.limit,
    {
        self.limit
    }

    /// How many tasks the run has.
    pub fn total(&self) -> (n: usize)
        ensures
            n == self@.total,
    {
        self.total
    }

    /// How many requests hold a slot now.
    pub fn in_flight(&self) -> (n: usize)
        ensures
            n == self@.in_flight,
    {
        self.in_flight
    }

    /// How many requests have finished.
    pub fn processed(&self) -> (n: usize)
        ensures
            n == self@.processed,
    {
        self.processed
    }

    /// How many finished requests were filtered as noise.
    pub fn filtered(&self) -> (n: usize)
        ensures
            n == self@.filtered,
    {
        self.filtered
    }

    /// How many finished requests were reported.
    pub fn reported(&self) -> (n: usize)
        ensures
            n == self@.reported,
    {
        self.reported
    }
}

/// One event keeps a run valid and leaves its limit and its total alone.
pub proof fn lemma_event_keeps_valid(p: Progress, event: Event)
    requires
        valid(p),
    ensures
        valid(after(p, event)),
        after(p, event).limit == p.limit,
        after(p, event).total == p.total,
{
}

/// Whatever happens in whatever order, the requests that hold an admission
/// slot never outnumber the limit that the run began with, and no more is
/// counted as processed than the run has tasks.
pub proof fn lemma_admission_bound(total: nat, limit: nat, events: Seq<Event>)
    ensures
        valid(after_all(initial(total, limit), events)),
        after_all(initial(total, limit), events).limit == limit,
        after_all(initial(total, limit), events).total == total,
        after_all(initial(total, limit), events).in_flight <= limit,
        after_all(initial(total, limit), events).processed <= total,
    decreases events.len(),
{
    if events.len() > 0 {
        lemma_admission_bound(total, limit, events.drop_last());
        lemma_event_keeps_valid(after_all(initial(total, limit), events.drop_last()), events.last());
    }
}

/// In a path run with `threads` configured threads, at no moment do more than
/// four times `threads` requests hold a slot.
pub proof fn lemma_path_admission_bound(total: nat, threads: nat, events: Seq<Event>)
    ensures
        after_all(initial(total, 4 * threads), events).in_flight <= 4 * threads,
{
    lemma_admission_bound(total, 4 * threads, events);
}

/// When every task has finished, none holds a slot and all were handed out.
pub proof fn lemma_finished_run(p: Progress)
    requires
        valid(p),
        finished(p),
    ensures
        p.in_flight == 0,
        p.dispatched == p.total,
        !can_acquire(p),
{
}

/// A run with at least one slot never stands still before its end: while a
/// task is unfinished, either a task can take a slot or a request is in
/// flight whose end will free one.
pub proof fn lemma_unfinished_run_goes_on(p: Progress)
    requires
        valid(p),
        !finished(p),
        p.limit > 0,
    ensures
        can_acquire(p) || p.in_flight > 0,
{
}

} // verus!
