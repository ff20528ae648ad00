//! The retry driver: what to do after each attempt of a knock.
//!
//! The driver itself does no I/O. A caller runs each `RetryAction` in turn:
//! it runs attempt `i` under the per-attempt deadline, reports a timeout,
//! sleeps the backoff, or finishes; after an attempt it hands the outcome
//! back to `RetryPolicy::after`, which gives the next actions.

use vstd::prelude::*;

verus! {

/// How one attempt ended.
pub enum AttemptOutcome<E> {
    /// The operation succeeded: stop retrying.
    Done,
    /// The operation failed in a way worth retrying.
    Retry,
    /// The per-attempt deadline elapsed first; retried like `Retry`.
    TimedOut,
    /// The operation failed for good: stop and hand the error back.
    Fatal(E),
}

/// One step for the caller to carry out.
pub enum RetryAction<E> {
    /// Run attempt number `i` (counted from 1) under the per-attempt deadline.
    Attempt(usize),
    /// Report that attempt number `i` ran out of time.
    ReportTimeout(usize),
    /// Wait this many milliseconds.
    Sleep(u64),
    /// Stop; the knock ends with this result.
    Finish(Result<(), E>),
}

/// Attempt budget, per-attempt deadline and backoff of a knock.
pub struct RetryPolicy {
    pub retries: usize,
    pub timeout_ms: u64,
    pub backoff_ms: u64,
}

/// Whether attempt `i` of `retries`, ending in `o`, is followed by another.
pub open spec fn continues<E>(retries: nat, i: nat, o: AttemptOutcome<E>) -> bool {
    (o is Retry || o is TimedOut) && i < retries
}

/// The actions that open a knock.
pub open spec fn start_actions<E>(retries: nat) -> Seq<RetryAction<E>> {
    if retries == 0 {
        seq![RetryAction::Finish(Ok(()))]
    } else {
        seq![RetryAction::Attempt(1)]
    }
}

/// The actions that follow attempt `i` of `retries` when it ends in `o`.
#[verifier::opaque]
pub open spec fn after_actions<E>(
    retries: nat,
    backoff: u64,
    i: nat,
    o: AttemptOutcome<E>,
) -> Seq<RetryAction<E>> {
    let rest = if i < retries {
        seq![RetryAction::Sleep(backoff), RetryAction::Attempt((i + 1) as usize)]
    } else {
        seq![RetryAction::Finish(Ok(()))]
    };
    match o {
        AttemptOutcome::Done => seq![RetryAction::Finish(Ok(()))],
        AttemptOutcome::Fatal(e) => seq![RetryAction::Finish(Err(e))],
        AttemptOutcome::Retry => rest,
        AttemptOutcome::TimedOut => seq![RetryAction::ReportTimeout(i as usize)] + rest,
    }
}

/// The actions after attempt `i` when attempts `i, i + 1, ...` end as `outs` says.
pub open spec fn actions_from<E>(
    retries: nat,
    backoff: u64,
    i: nat,
    outs: Seq<AttemptOutcome<E>>,
) -> Seq<RetryAction<E>>
    decreases outs.len(),
{
    if outs.len() == 0 {
        seq![]
    } else if continues(retries, i, outs[0]) {
        after_actions(retries, backoff, i, outs[0]) + actions_from(
            retries,
            backoff,
            i + 1,
            outs.drop_first(),
        )
    } else {
        after_actions(retries, backoff, i, outs[0])
    }
}

/// Every action of a knock, from the start, when its attempts end as `outs` says
/// (outcomes past the last attempt are never read).
pub open spec fn knock_actions<E>(
    retries: nat,
    backoff: u64,
    outs: Seq<AttemptOutcome<E>>,
) -> Seq<RetryAction<E>> {
    if retries == 0 {
        start_actions(retries)
    } else {
        start_actions(retries) + actions_from(retries, backoff, 1, outs)
    }
}

/// Number of items of `s` that satisfy `p`.
pub open spec fn count_where<T>(s: Seq<T>, p: spec_fn(T) -> bool) -> nat
    decreases s.len(),
{
    if s.len() == 0 {
        0
    } else {
        count_where(s.drop_first(), p) + if p(s[0]) {
            1nat
        } else {
            0nat
        }
    }
}

/// Number of attempts among `t`.
pub open spec fn attempts_in<E>(t: Seq<RetryAction<E>>) -> nat {
    count_where(t, |x: RetryAction<E>| is_attempt(x))
}

/// Number of backoff sleeps among `t`.
pub open spec fn sleeps_in<E>(t: Seq<RetryAction<E>>) -> nat {
    count_where(t, |x: RetryAction<E>| is_sleep(x))
}

/// Number of timeout reports among `t`.
pub open spec fn timeout_reports_in<E>(t: Seq<RetryAction<E>>) -> nat {
    count_where(t, |x: RetryAction<E>| is_timeout_report(x))
}

/// Number of attempts in `outs` that ran out of time.
pub open spec fn timeouts_in<E>(outs: Seq<AttemptOutcome<E>>) -> nat {
    count_where(outs, |o: AttemptOutcome<E>| is_timed_out(o))
}

pub open spec fn is_attempt<E>(a: RetryAction<E>) -> bool {
    a is Attempt
}

pub open spec fn is_sleep<E>(a: RetryAction<E>) -> bool {
    a is Sleep
}

pub open spec fn is_timeout_report<E>(a: RetryAction<E>) -> bool {
    a is ReportTimeout
}

pub open spec fn is_timed_out<E>(o: AttemptOutcome<E>) -> bool {
    o is TimedOut
}

/// How an attempt ended, from what it returned within its deadline (`None`
/// when the deadline elapsed first): `Ok(true)` is done, `Ok(false)` is worth
/// retrying, `Err(e)` is fatal.
pub fn classify<E>(r: Option<Result<bool, E>>) -> (o: AttemptOutcome<E>)
    ensures
        o == match r {
            None => AttemptOutcome::TimedOut,
            Some(Ok(true)) => AttemptOutcome::Done,
            Some(Ok(false)) => AttemptOutcome::Retry,
            Some(Err(e)) => AttemptOutcome::<E>::Fatal(e),
        },
{
    match r {
        None => AttemptOutcome::TimedOut,
        Some(Ok(true)) => AttemptOutcome::Done,
        Some(Ok(false)) => AttemptOutcome::Retry,
        Some(Err(e)) => AttemptOutcome::Fatal(e),
    }
}

impl RetryPolicy {
    pub fn new(retries: usize, timeout_ms: u64, backoff_ms: u64) -> (r: RetryPolicy)
        ensures
            r.retries == retries,
            r.timeout_ms == timeout_ms,
            r.backoff_ms == backoff_ms,
    {
        RetryPolicy { retries, timeout_ms, backoff_ms }
    }

    /// The actions that open a knock: the first attempt, or, with no attempt
    /// allowed, an immediate successful finish.
    pub fn start<E>(&self) -> (r: Vec<RetryAction<E>>)
        ensures
            r@ == start_actions::<E>(self.retries as nat),
    {
        if self.retries == 0 {
            let r = vec![RetryAction::Finish(Ok(()))];
            assert(r@ =~= start_actions::<E>(self.retries as nat));
            r
        } else {
            let r = vec![RetryAction::Attempt(1)];
            assert(r@ =~= start_actions::<E>(self.retries as nat));
            r
        }
    }

    /// The actions that follow attempt `attempt` when it ended in `outcome`:
    /// finish on `Done` or `Fatal`; otherwise report a timeout if there was
    /// one, then either back off and try the next attempt, or finish
    /// successfully once the attempts are used up.
    pub fn after<E>(&self, attempt: usize, outcome: AttemptOutcome<E>) -> (r: Vec<
        RetryAction<E>,
    >)
        requires
            1 <= attempt <= self.retries,
        ensures
            r@ == after_actions(self.retries as nat, self.backoff_ms, attempt as nat, outcome),
    {
        let ghost o = outcome;
        let mut r: Vec<RetryAction<E>> = Vec::new();
        let again = match outcome {
            AttemptOutcome::Done => {
                r.push(RetryAction::Finish(Ok(())));
                false
            },
            AttemptOutcome::Fatal(e) => {
                r.push(RetryAction::Finish(Err(e)));
                false
            },
            AttemptOutcome::Retry => true,
            AttemptOutcome::TimedOut => {
                r.push(RetryAction::ReportTimeout(attempt));
                true
            },
        };
        if again {
            if attempt < self.retries {
                r.push(RetryAction::Sleep(self.backoff_ms));
                r.push(RetryAction::Attempt(attempt + 1));
            } else {
                r.push(RetryAction::Finish(Ok(())));
            }
        }
        reveal(after_actions);
        assert(r@ =~= after_actions(self.retries as nat, self.backoff_ms, attempt as nat, o));
        r
    }
}

proof fn lemma_count_add<T>(a: Seq<T>, b: Seq<T>, p: spec_fn(T) -> bool)
    ensures
        count_where(a + b, p) == count_where(a, p) + count_where(b, p),
    decreases a.len(),
{
    if a.len() > 0 {
        assert((a + b).drop_first() =~= a.drop_first() + b);
        lemma_count_add(a.drop_first(), b, p);
    } else {
        assert(a + b =~= b);
    }
}

proof fn lemma_counts_add<E>(a: Seq<RetryAction<E>>, b: Seq<RetryAction<E>>)
    ensures
        attempts_in(a + b) == attempts_in(a) + attempts_in(b),
        sleeps_in(a + b) == sleeps_in(a) + sleeps_in(b),
        timeout_reports_in(a + b) == timeout_reports_in(a) + timeout_reports_in(b),
{
    lemma_count_add(a, b, |x: RetryAction<E>| is_attempt(x));
    lemma_count_add(a, b, |x: RetryAction<E>| is_sleep(x));
    lemma_count_add(a, b, |x: RetryAction<E>| is_timeout_report(x));
}

proof fn lemma_count_one<T>(x: T, p: spec_fn(T) -> bool)
    ensures
        count_where(seq![x], p) == (if p(x) { 1nat } else { 0nat }),
{
    assert(seq![x].drop_first() =~= Seq::<T>::empty());
    assert(count_where(Seq::<T>::empty(), p) == 0);
}

/// Where sleeps, attempts and finishes stand among the actions after one attempt.
proof fn lemma_after_shape<E>(retries: nat, backoff: u64, i: nat, o: AttemptOutcome<E>)
    requires
        1 <= i <= retries,
    ensures
        ({
            let a = after_actions(retries, backoff, i, o);
            &&& a.len() >= 1
            &&& continues(retries, i, o) ==> {
                &&& a.len() >= 2
                &&& a.last() == RetryAction::<E>::Attempt((i + 1) as usize)
                &&& a[a.len() - 2] is Sleep
                &&& forall|k: int|
                    0 <= k < a.len() - 1 ==> !((#[trigger] a[k]) is Finish) && !(a[k] is Attempt)
                        && (a[k] is Sleep ==> k == a.len() - 2)
            }
            &&& !continues(retries, i, o) ==> well_placed(a, i, retries)
        }),
{
    reveal(after_actions);
}

proof fn lemma_counts_one<E>(x: RetryAction<E>)
    ensures
        attempts_in(seq![x]) == (if x is Attempt { 1nat } else { 0nat }),
        sleeps_in(seq![x]) == (if x is Sleep { 1nat } else { 0nat }),
        timeout_reports_in(seq![x]) == (if x is ReportTimeout { 1nat } else { 0nat }),
{
    lemma_count_one(x, |x: RetryAction<E>| is_attempt(x));
    lemma_count_one(x, |x: RetryAction<E>| is_sleep(x));
    lemma_count_one(x, |x: RetryAction<E>| is_timeout_report(x));
}

proof fn lemma_after_counts<E>(retries: nat, backoff: u64, i: nat, o: AttemptOutcome<E>)
    requires
        1 <= i <= retries,
    ensures
        ({
            let a = after_actions(retries, backoff, i, o);
            &&& sleeps_in(a) == (if continues(retries, i, o) { 1nat } else { 0nat })
            &&& attempts_in(a) == (if continues(retries, i, o) { 1nat } else { 0nat })
            &&& timeout_reports_in(a) == (if o is TimedOut { 1nat } else { 0nat })
        }),
{
    reveal(after_actions);
    let s: RetryAction<E> = RetryAction::Sleep(backoff);
    let n: RetryAction<E> = RetryAction::Attempt((i + 1) as usize);
    let f: RetryAction<E> = RetryAction::Finish(Ok(()));
    let t: RetryAction<E> = RetryAction::ReportTimeout(i as usize);
    lemma_counts_one(s);
    lemma_counts_one(n);
    lemma_counts_one(f);
    lemma_counts_one(t);
    lemma_counts_add(seq![s], seq![n]);
    assert(seq![s] + seq![n] =~= seq![s, n]);
    let rest: Seq<RetryAction<E>> = if i < retries {
        seq![s, n]
    } else {
        seq![f]
    };
    lemma_counts_add(seq![t], rest);
    match o {
        AttemptOutcome::Fatal(e) => {
            lemma_counts_one(RetryAction::<E>::Finish(Err(e)));
        },
        _ => {},
    }
}

/// In `t`, each sleep is followed by an attempt, a finish comes last, and
/// each attempt has a number in `lo + 1 ..= retries`.
pub open spec fn well_placed<E>(t: Seq<RetryAction<E>>, lo: nat, retries: nat) -> bool {
    &&& forall|k: int|
        0 <= k < t.len() && (#[trigger] t[k]) is Sleep ==> k + 1 < t.len() && t[k + 1] is Attempt
    &&& forall|k: int| 0 <= k < t.len() && (#[trigger] t[k]) is Finish ==> k == t.len() - 1
    &&& forall|k: int|
        0 <= k < t.len() && (#[trigger] t[k]) is Attempt ==> lo < t[k]->Attempt_0 <= retries
}

proof fn lemma_join<E>(a: Seq<RetryAction<E>>, rest: Seq<RetryAction<E>>, i: nat, retries: nat)
    requires
        a.len() >= 2,
        a.last() == RetryAction::<E>::Attempt((i + 1) as usize),
        a[a.len() - 2] is Sleep,
        forall|k: int|
            0 <= k < a.len() - 1 ==> !((#[trigger] a[k]) is Finish) && !(a[k] is Attempt) && (
            a[k] is Sleep ==> k == a.len() - 2),
        well_placed(rest, i + 1, retries),
        i < retries <= usize::MAX,
    ensures
        well_placed(a + rest, i, retries),
{
    lemma_join_sleeps(a, rest);
    lemma_join_finish(a, rest);
    lemma_join_attempts(a, rest, i, retries);
}

proof fn lemma_join_sleeps<E>(a: Seq<RetryAction<E>>, rest: Seq<RetryAction<E>>)
    requires
        a.len() >= 2,
        a.last() is Attempt,
        forall|k: int|
            0 <= k < a.len() - 1 && (#[trigger] a[k]) is Sleep ==> k == a.len() - 2,
        forall|k: int|
            0 <= k < rest.len() && (#[trigger] rest[k]) is Sleep ==> k + 1 < rest.len() && rest[k + 1] is Attempt,
    ensures
        forall|k: int|
            0 <= k < (a + rest).len() && (#[trigger] (a + rest)[k]) is Sleep ==> k + 1 < (a + rest).len()
                && (a + rest)[k + 1] is Attempt,
{
    let t = a + rest;
    assert forall|k: int| 0 <= k < t.len() && (#[trigger] t[k]) is Sleep implies k + 1 < t.len()
        && t[k + 1] is Attempt by {
        if k >= a.len() {
            assert(t[k] == rest[k - a.len()]);
            assert(t[k + 1] == rest[k + 1 - a.len()]);
        } else if k < a.len() - 1 {
            assert(t[k] == a[k]);
        }
    }
}

proof fn lemma_join_finish<E>(a: Seq<RetryAction<E>>, rest: Seq<RetryAction<E>>)
    requires
        a.len() >= 1,
        forall|k: int| 0 <= k < a.len() ==> !((#[trigger] a[k]) is Finish),
        forall|k: int| 0 <= k < rest.len() && (#[trigger] rest[k]) is Finish ==> k == rest.len() - 1,
    ensures
        forall|k: int| 0 <= k < (a + rest).len() && (#[trigger] (a + rest)[k]) is Finish ==> k == (a
            + rest).len() - 1,
{
    let t = a + rest;
    assert forall|k: int| 0 <= k < t.len() && (#[trigger] t[k]) is Finish implies k == t.len() - 1 by {
        if k >= a.len() {
            assert(t[k] == rest[k - a.len()]);
        } else {
            assert(t[k] == a[k]);
        }
    }
}

proof fn lemma_join_attempts<E>(a: Seq<RetryAction<E>>, rest: Seq<RetryAction<E>>, i: nat, retries: nat)
    requires
        a.len() >= 1,
        a.last() == RetryAction::<E>::Attempt((i + 1) as usize),
        forall|k: int| 0 <= k < a.len() - 1 ==> !((#[trigger] a[k]) is Attempt),
        forall|k: int|
            0 <= k < rest.len() && (#[trigger] rest[k]) is Attempt ==> i + 1 < rest[k]->Attempt_0 <= retries,
        i < retries <= usize::MAX,
    ensures
        forall|k: int|
            0 <= k < (a + rest).len() && (#[trigger] (a + rest)[k]) is Attempt ==> i < (a + rest)[k]->Attempt_0
                <= retries,
{
    let t = a + rest;
    assert forall|k: int| 0 <= k < t.len() && (#[trigger] t[k]) is Attempt implies i < t[k]->Attempt_0 <= retries by {
        if k >= a.len() {
            assert(t[k] == rest[k - a.len()]);
        } else {
            assert(t[k] == a[k]);
        }
    }
}

/// Shape of the actions that follow attempt `i`, by induction on the outcomes.
proof fn lemma_actions_from<E>(retries: nat, backoff: u64, i: nat, outs: Seq<AttemptOutcome<E>>)
    requires
        1 <= i <= retries <= usize::MAX,
    ensures
        attempts_in(actions_from(retries, backoff, i, outs)) <= retries - i,
        sleeps_in(actions_from(retries, backoff, i, outs)) == attempts_in(
            actions_from(retries, backoff, i, outs),
        ),
        well_placed(actions_from(retries, backoff, i, outs), i, retries),
    decreases outs.len(),
{
    if outs.len() > 0 {
        let a = after_actions(retries, backoff, i, outs[0]);
        lemma_after_counts(retries, backoff, i, outs[0]);
        lemma_after_shape(retries, backoff, i, outs[0]);
        if continues(retries, i, outs[0]) {
            let rest = actions_from(retries, backoff, i + 1, outs.drop_first());
            lemma_actions_from(retries, backoff, i + 1, outs.drop_first());
            lemma_counts_add(a, rest);
            lemma_join(a, rest, i, retries);
        }
    }
}

/// A knock makes at most `retries` attempts, numbered from 1; it sleeps only
/// between two consecutive attempts (never before the first, never after the
/// last, never after `Done` or `Fatal`), and finishing is always its last action.
pub proof fn law_attempts_and_backoff<E>(retries: usize, backoff: u64, outs: Seq<AttemptOutcome<E>>)
    ensures
        ({
            let t = knock_actions(retries as nat, backoff, outs);
            let attempts = attempts_in(t);
            let sleeps = sleeps_in(t);
            &&& attempts <= retries
            &&& retries > 0 ==> t[0] == RetryAction::<E>::Attempt(1) && sleeps + 1 == attempts
            &&& retries == 0 ==> sleeps == 0 && attempts == 0
            &&& forall|k: int|
                0 <= k < t.len() && (#[trigger] t[k]) is Sleep ==> 0 < k && k + 1 < t.len() && t[k
                    + 1] is Attempt
            &&& forall|k: int| 0 <= k < t.len() && (#[trigger] t[k]) is Finish ==> k == t.len() - 1
            &&& forall|k: int|
                0 <= k < t.len() && (#[trigger] t[k]) is Attempt ==> 1 <= t[k]->Attempt_0 <= retries
        }),
{
    let retries = retries as nat;
    let t = knock_actions(retries, backoff, outs);
    let s = start_actions::<E>(retries);
    lemma_counts_one(s[0]);
    assert(s =~= seq![s[0]]);
    if retries > 0 {
        let rest = actions_from(retries, backoff, 1, outs);
        lemma_actions_from(retries, backoff, 1, outs);
        lemma_counts_add(s, rest);
        assert forall|k: int| 0 <= k < t.len() && (#[trigger] t[k]) is Sleep implies 0 < k && k + 1 < t.len()
            && t[k + 1] is Attempt by {
            if k >= 1 {
                assert(t[k] == rest[k - 1]);
                assert(t[k + 1] == rest[k]);
            }
        }
        assert forall|k: int| 0 <= k < t.len() && (#[trigger] t[k]) is Finish implies k == t.len() - 1 by {
            if k >= 1 {
                assert(t[k] == rest[k - 1]);
            }
        }
        assert forall|k: int| 0 <= k < t.len() && (#[trigger] t[k]) is Attempt implies 1 <= t[k]->Attempt_0 <= retries by {
            if k >= 1 {
                assert(t[k] == rest[k - 1]);
            }
        }
    }
}

proof fn lemma_success_at_last<E>(
    retries: nat,
    backoff: u64,
    i: nat,
    outs: Seq<AttemptOutcome<E>>,
)
    requires
        1 <= i <= retries <= usize::MAX,
        outs.len() == retries - i + 1,
        outs.last() is Done,
        forall|j: int| 0 <= j < outs.len() - 1 ==> (#[trigger] outs[j]) is Retry || outs[j] is TimedOut,
    ensures
        actions_from(retries, backoff, i, outs).len() > 0,
        actions_from(retries, backoff, i, outs).last() == RetryAction::<E>::Finish(Ok(())),
        timeout_reports_in(actions_from(retries, backoff, i, outs)) == timeouts_in(outs),
        sleeps_in(actions_from(retries, backoff, i, outs)) == retries - i,
        attempts_in(actions_from(retries, backoff, i, outs)) == retries - i,
    decreases outs.len(),
{
    let a = after_actions(retries, backoff, i, outs[0]);
    lemma_after_counts(retries, backoff, i, outs[0]);
    assert(count_where(outs, |o: AttemptOutcome<E>| is_timed_out(o)) == count_where(
        outs.drop_first(),
        |o: AttemptOutcome<E>| is_timed_out(o),
    ) + if is_timed_out(outs[0]) {
        1nat
    } else {
        0nat
    });
    if i < retries {
        let rest = actions_from(retries, backoff, i + 1, outs.drop_first());
        lemma_success_at_last(retries, backoff, i + 1, outs.drop_first());
        lemma_counts_add(a, rest);
        assert(outs.drop_first().len() == retries - (i + 1) + 1);
    } else {
        reveal(after_actions);
        assert(outs.drop_first().len() == 0);
        assert(count_where(outs.drop_first(), |o: AttemptOutcome<E>| is_timed_out(o)) == 0);
    }
}

/// When every attempt but the last fails, exactly one of them by running out of
/// time, and the last one succeeds, the knock finishes successfully after
/// `retries` attempts, one timeout report and `retries - 1` backoff sleeps.
pub proof fn law_timeout_then_success<E>(retries: usize, backoff: u64, outs: Seq<AttemptOutcome<E>>)
    requires
        retries >= 1,
        outs.len() == retries,
        outs.last() is Done,
        forall|j: int| 0 <= j < outs.len() - 1 ==> (#[trigger] outs[j]) is Retry || outs[j] is TimedOut,
        timeouts_in(outs) == 1,
    ensures
        ({
            let t = knock_actions(retries as nat, backoff, outs);
            &&& t.last() == RetryAction::<E>::Finish(Ok(()))
            &&& timeout_reports_in(t) == 1
            &&& sleeps_in(t) == retries - 1
            &&& attempts_in(t) == retries
        }),
{
    let n = retries as nat;
    let s = start_actions::<E>(n);
    let rest = actions_from(n, backoff, 1, outs);
    lemma_counts_one(s[0]);
    assert(s =~= seq![s[0]]);
    lemma_success_at_last(n, backoff, 1, outs);
    lemma_counts_add(s, rest);
}

} // verus!
