//! Admission of knocks: one per port, in sequence order, with at most
//! `concurrency` of them in flight, and a batch-wide cancellation.
//!
//! The scheduler does no I/O. A caller asks `next_action` what to do: start the
//! knock on a port, wait until a running knock completes (then report it with
//! `completed`), or stop.

use vstd::prelude::*;

verus! {

/// What the caller does next.
pub enum SchedAction {
    /// Start the knock on this port.
    Start(u16),
    /// Wait until one knock in flight completes, then call `completed`.
    AwaitCompletion,
    /// Every knock was started and has completed.
    Finished,
    /// The batch was cancelled: start nothing more.
    Cancelled,
}

/// The state of a scheduler as plain values.
pub struct SchedView {
    pub ports: Seq<u16>,
    pub concurrency: nat,
    /// How many knocks were admitted: the ports before this index.
    pub next: nat,
    pub in_flight: nat,
    pub cancelled: bool,
}

/// Bounded-concurrency, FIFO admission scheduler over a port sequence.
pub struct KnockScheduler {
    pub ports: Vec<u16>,
    pub concurrency: usize,
    pub next: usize,
    pub in_flight: usize,
    pub cancelled: bool,
}

impl View for KnockScheduler {
    type V = SchedView;

    open spec fn view(&self) -> SchedView {
        SchedView {
            ports: self.ports@,
            concurrency: self.concurrency as nat,
            next: self.next as nat,
            in_flight: self.in_flight as nat,
            cancelled: self.cancelled,
        }
    }
}

/// A scheduler state that admission can reach: knocks in flight were admitted,
/// and there are never more of them than the bound.
pub open spec fn sched_wf(s: SchedView) -> bool {
    &&& s.concurrency >= 1
    &&& s.next <= s.ports.len()
    &&& s.in_flight <= s.next
    &&& s.in_flight <= s.concurrency
}

/// The scheduler before any knock.
pub open spec fn sched_init(ports: Seq<u16>, concurrency: nat) -> SchedView {
    SchedView { ports, concurrency, next: 0, in_flight: 0, cancelled: false }
}

/// What `next_action` does: the new state and the action handed out.
pub open spec fn sched_next(s: SchedView) -> (SchedView, SchedAction) {
    if s.cancelled {
        (s, SchedAction::Cancelled)
    } else if s.next < s.ports.len() && s.in_flight < s.concurrency {
        (
            SchedView { next: s.next + 1, in_flight: s.in_flight + 1, ..s },
            SchedAction::Start(s.ports[s.next as int]),
        )
    } else if s.in_flight > 0 {
        (s, SchedAction::AwaitCompletion)
    } else {
        (s, SchedAction::Finished)
    }
}

/// What `completed` does.
pub open spec fn sched_completed(s: SchedView) -> SchedView {
    SchedView { in_flight: (s.in_flight - 1) as nat, ..s }
}

/// What `cancel` does.
pub open spec fn sched_cancelled(s: SchedView) -> SchedView {
    SchedView { cancelled: true, ..s }
}

/// One round of a caller: take the next action, and when told to wait, see
/// one knock in flight complete.
pub open spec fn sched_round(s: SchedView) -> SchedView {
    let (s1, a) = sched_next(s);
    if a is AwaitCompletion {
        sched_completed(s1)
    } else {
        s1
    }
}

/// The state after `rounds` rounds.
pub open spec fn sched_drive(s: SchedView, rounds: nat) -> SchedView
    decreases rounds,
{
    if rounds == 0 {
        s
    } else {
        sched_drive(sched_round(s), (rounds - 1) as nat)
    }
}

/// The ports started during `rounds` rounds, in the order they were started.
pub open spec fn sched_started(s: SchedView, rounds: nat) -> Seq<u16>
    decreases rounds,
{
    if rounds == 0 {
        seq![]
    } else {
        let a = sched_next(s).1;
        let now = if a is Start {
            seq![a->Start_0]
        } else {
            seq![]
        };
        now + sched_started(sched_round(s), (rounds - 1) as nat)
    }
}

impl KnockScheduler {
    pub open spec fn wf(&self) -> bool {
        sched_wf(self@)
    }

    /// A scheduler over `ports` that lets at most `concurrency` knocks run at once.
    pub fn new(ports: Vec<u16>, concurrency: usize) -> (r: KnockScheduler)
        requires
            concurrency >= 1,
        ensures
            r@ == sched_init(ports@, concurrency as nat),
            r.wf(),
    {
        KnockScheduler { ports, concurrency, next: 0, in_flight: 0, cancelled: false }
    }

    /// Start the next port if a slot is free, else wait for a knock in
    /// flight, else report that all is done (or that the batch was cancelled).
    pub fn next_action(&mut self) -> (a: SchedAction)
        requires
            old(self).wf(),
        ensures
            final(self).wf(),
            (final(self)@, a) == sched_next(old(self)@),
    {
        if self.cancelled {
            SchedAction::Cancelled
        } else if self.next < self.ports.len() && self.in_flight < self.concurrency {
            let port = self.ports[self.next];
            self.next = self.next + 1;
            self.in_flight = self.in_flight + 1;
            SchedAction::Start(port)
        } else if self.in_flight > 0 {
            SchedAction::AwaitCompletion
        } else {
            SchedAction::Finished
        }
    }

    /// A knock in flight has completed.
    pub fn completed(&mut self)
        requires
            old(self).wf(),
            old(self).in_flight > 0,
        ensures
            final(self).wf(),
            final(self)@ == sched_completed(old(self)@),
    {
        self.in_flight = self.in_flight - 1;
    }

    /// Cancel the batch: no knock starts after this.
    pub fn cancel(&mut self)
        requires
            old(self).wf(),
        ensures
            final(self).wf(),
            final(self)@ == sched_cancelled(old(self)@),
    {
        self.cancelled = true;
    }

    /// How many knocks were admitted so far.
    pub fn admitted(&self) -> (r: usize)
        ensures
            r == self.next,
    {
        self.next
    }

    /// How many admitted knocks have not completed.
    pub fn in_flight(&self) -> (r: usize)
        ensures
            r == self.in_flight,
    {
        self.in_flight
    }
}

/// Rounds still needed before every knock has been started and completed.
pub open spec fn sched_work(s: SchedView) -> nat {
    (2 * (s.ports.len() - s.next) + s.in_flight) as nat
}

proof fn lemma_round_wf(s: SchedView)
    requires
        sched_wf(s),
    ensures
        sched_wf(sched_round(s)),
        sched_round(s).ports == s.ports,
        sched_round(s).concurrency == s.concurrency,
        !s.cancelled && sched_work(s) > 0 ==> sched_work(sched_round(s)) == sched_work(s) - 1,
        !s.cancelled && sched_work(s) > 0 ==> !sched_round(s).cancelled,
        sched_work(s) == 0 || s.cancelled ==> sched_round(s) == s,
{
}

proof fn lemma_drive_wf(s: SchedView, rounds: nat)
    requires
        sched_wf(s),
    ensures
        sched_wf(sched_drive(s, rounds)),
        sched_drive(s, rounds).ports == s.ports,
        sched_drive(s, rounds).concurrency == s.concurrency,
    decreases rounds,
{
    if rounds > 0 {
        lemma_round_wf(s);
        lemma_drive_wf(sched_round(s), (rounds - 1) as nat);
    }
}

proof fn lemma_drive_completes(s: SchedView, rounds: nat)
    requires
        sched_wf(s),
        !s.cancelled,
        rounds >= sched_work(s),
    ensures
        sched_drive(s, rounds).next == s.ports.len(),
        sched_drive(s, rounds).in_flight == 0,
        !sched_drive(s, rounds).cancelled,
        sched_started(s, rounds) == s.ports.subrange(s.next as int, s.ports.len() as int),
    decreases rounds,
{
    lemma_round_wf(s);
    if rounds > 0 {
        lemma_drive_completes(sched_round(s), (rounds - 1) as nat);
        if sched_work(s) > 0 && s.next < s.ports.len() && s.in_flight < s.concurrency {
            assert(s.ports.subrange(s.next as int, s.ports.len() as int) =~= seq![s.ports[s.next as int]]
                + s.ports.subrange((s.next + 1) as int, s.ports.len() as int));
        } else {
            assert(s.ports.subrange(s.next as int, s.ports.len() as int) =~= seq![]
                + s.ports.subrange(sched_round(s).next as int, s.ports.len() as int));
        }
    } else {
        assert(s.ports.subrange(s.next as int, s.ports.len() as int) =~= seq![]);
    }
}

/// A caller that follows the scheduler admits every port exactly once, in sequence
/// order, and is done after `2 * ports.len()` rounds; at no point are more than
/// `concurrency` knocks in flight.
pub proof fn law_admission(ports: Seq<u16>, concurrency: nat, rounds: nat)
    requires
        concurrency >= 1,
    ensures
        sched_drive(sched_init(ports, concurrency), rounds).in_flight <= concurrency,
        sched_drive(sched_init(ports, concurrency), rounds).next <= ports.len(),
        sched_started(sched_init(ports, concurrency), 2 * ports.len()) == ports,
        sched_next(sched_drive(sched_init(ports, concurrency), 2 * ports.len())).1 is Finished,
{
    let s = sched_init(ports, concurrency);
    lemma_drive_wf(s, rounds);
    let all: nat = 2 * ports.len();
    lemma_drive_completes(s, all);
    lemma_drive_wf(s, all);
    let f = sched_drive(s, all);
    assert(f.next == f.ports.len() && f.in_flight == 0 && !f.cancelled);
    assert(sched_next(f).1 is Finished);
    assert(ports.subrange(0, ports.len() as int) =~= ports);
}

proof fn lemma_cancelled_stays(s: SchedView, rounds: nat)
    requires
        s.cancelled,
    ensures
        sched_drive(s, rounds) == s,
        sched_started(s, rounds) == Seq::<u16>::empty(),
    decreases rounds,
{
    if rounds > 0 {
        lemma_cancelled_stays(s, (rounds - 1) as nat);
        assert(seq![] + Seq::<u16>::empty() =~= Seq::<u16>::empty());
    }
}

/// Once the batch is cancelled no further knock is admitted, however many
/// rounds follow: the admitted count and the knocks in flight stay as they were.
pub proof fn law_cancel_admits_nothing(s: SchedView, rounds: nat)
    requires
        sched_wf(s),
    ensures
        sched_drive(sched_cancelled(s), rounds) == sched_cancelled(s),
        sched_drive(sched_cancelled(s), rounds).next == s.next,
        sched_started(sched_cancelled(s), rounds) == Seq::<u16>::empty(),
        sched_next(sched_cancelled(s)).1 is Cancelled,
{
    lemma_cancelled_stays(sched_cancelled(s), rounds);
}

} // verus!
