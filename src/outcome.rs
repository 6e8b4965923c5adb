use crate::node::BehaviorResult;
use vstd::prelude::*;

verus! {

/// `d` is a value that `T::default()` may return.
pub open spec fn is_default<T: Default>(d: T) -> bool {
    call_ensures(T::default, (), d)
}

/// The values of the `Success` outcomes among `outs`, in order.
pub open spec fn successes<R, F>(outs: Seq<BehaviorResult<R, F>>) -> Seq<R>
    decreases outs.len(),
{
    if outs.len() == 0 {
        Seq::empty()
    } else {
        let front = successes(outs.drop_last());
        match outs.last() {
            BehaviorResult::Success(v) => front.push(v),
            _ => front,
        }
    }
}

/// The values of the `Failure` outcomes among `outs`, in order.
pub open spec fn failures<R, F>(outs: Seq<BehaviorResult<R, F>>) -> Seq<F>
    decreases outs.len(),
{
    if outs.len() == 0 {
        Seq::empty()
    } else {
        let front = failures(outs.drop_last());
        match outs.last() {
            BehaviorResult::Failure(v) => front.push(v),
            _ => front,
        }
    }
}

/// Some outcome among `outs` is a `Failure`.
pub open spec fn has_failure<R, F>(outs: Seq<BehaviorResult<R, F>>) -> bool {
    exists|i: int| 0 <= i < outs.len() && (#[trigger] outs[i]) is Failure
}

/// Some outcome among `outs` is a `Success`.
pub open spec fn has_success<R, F>(outs: Seq<BehaviorResult<R, F>>) -> bool {
    exists|i: int| 0 <= i < outs.len() && (#[trigger] outs[i]) is Success
}

/// `out` is a value that folding `values` into `init` from the left with
/// `merge`, one call per value, may give.
pub open spec fn folds_to<T, MR: Fn(T, T) -> T>(merge: MR, init: T, values: Seq<T>, out: T) -> bool
    decreases values.len(),
{
    if values.len() == 0 {
        out == init
    } else {
        exists|mid: T|
            folds_to(merge, init, values.drop_last(), mid) && #[trigger] call_ensures(
                merge,
                (mid, values.last()),
                out,
            )
    }
}

/// What a Sequence over `n` children returns, its accumulator started at
/// `init`, when the children it ticked gave `outs`, in order: the first
/// failure, or, when none failed and all `n` were ticked, the fold of the
/// successes.
pub open spec fn sequence_returns<R, F, MR: Fn(R, R) -> R>(
    merge: MR,
    init: R,
    n: nat,
    outs: Seq<BehaviorResult<R, F>>,
    r: BehaviorResult<R, F>,
) -> bool {
    ||| outs.len() == n && !has_failure(outs) && r is Success && folds_to(
        merge,
        init,
        successes(outs),
        r->Success_0,
    )
    ||| 0 < outs.len() <= n && outs.last() is Failure && !has_failure(outs.drop_last()) && r
        == outs.last()
}

/// What a Fallback over `n` children returns, its accumulator started at
/// `init`, when the children it ticked gave `outs`, in order: the first
/// success, or, when none succeeded and all `n` were ticked, the fold of the
/// failures.
pub open spec fn fallback_returns<R, F, MF: Fn(F, F) -> F>(
    merge: MF,
    init: F,
    n: nat,
    outs: Seq<BehaviorResult<R, F>>,
    r: BehaviorResult<R, F>,
) -> bool {
    ||| outs.len() == n && !has_success(outs) && r is Failure && folds_to(
        merge,
        init,
        failures(outs),
        r->Failure_0,
    )
    ||| 0 < outs.len() <= n && outs.last() is Success && !has_success(outs.drop_last()) && r
        == outs.last()
}

/// Appending a success to the outcomes takes one more merge step.
pub proof fn lemma_successes_step<R, F, MR: Fn(R, R) -> R>(
    merge: MR,
    init: R,
    outs: Seq<BehaviorResult<R, F>>,
    v: R,
    before: R,
    after: R,
)
    requires
        folds_to(merge, init, successes(outs), before),
        call_ensures(merge, (before, v), after),
    ensures
        folds_to(merge, init, successes(outs.push(BehaviorResult::Success(v))), after),
{
    let next = outs.push(BehaviorResult::Success(v));
    assert(next.drop_last() =~= outs);
    assert(successes(next) == successes(outs).push(v));
    assert(successes(next).drop_last() =~= successes(outs));
    assert(call_ensures(merge, (before, successes(next).last()), after));
}

/// Appending a failure to the outcomes takes one more merge step.
pub proof fn lemma_failures_step<R, F, MF: Fn(F, F) -> F>(
    merge: MF,
    init: F,
    outs: Seq<BehaviorResult<R, F>>,
    v: F,
    before: F,
    after: F,
)
    requires
        folds_to(merge, init, failures(outs), before),
        call_ensures(merge, (before, v), after),
    ensures
        folds_to(merge, init, failures(outs.push(BehaviorResult::Failure(v))), after),
{
    let next = outs.push(BehaviorResult::Failure(v));
    assert(next.drop_last() =~= outs);
    assert(failures(next) == failures(outs).push(v));
    assert(failures(next).drop_last() =~= failures(outs));
    assert(call_ensures(merge, (before, failures(next).last()), after));
}

/// Outcomes that are neither a success nor a failure add nothing to either
/// fold.
pub proof fn lemma_push_nonterminal<R, F>(outs: Seq<BehaviorResult<R, F>>, x: BehaviorResult<R, F>)
    requires
        !(x is Success),
        !(x is Failure),
    ensures
        successes(outs.push(x)) == successes(outs),
        failures(outs.push(x)) == failures(outs),
{
    assert(outs.push(x).drop_last() =~= outs);
}

/// One step of a Sequence: a child's success is merged into `acc`, its
/// failure ends the Sequence (`Err`), and `Idle` or `Running` leave `acc` as
/// it was.
pub fn sequence_step<R, F, MR: Fn(R, R) -> R>(merge: &MR, acc: R, outcome: BehaviorResult<R, F>) -> (r:
    Result<R, F>)
    requires
        forall|a: R, b: R| merge.requires((a, b)),
    ensures
        match outcome {
            BehaviorResult::Success(v) => r is Ok && call_ensures(*merge, (acc, v), r->Ok_0),
            BehaviorResult::Failure(f) => r == Err::<R, F>(f),
            _ => r == Ok::<R, F>(acc),
        },
{
    match outcome {
        BehaviorResult::Success(v) => Ok(merge(acc, v)),
        BehaviorResult::Failure(f) => Err(f),
        _ => Ok(acc),
    }
}

/// One step of a Fallback: a child's failure is merged into `acc`, its
/// success ends the Fallback (`Err`), and `Idle` or `Running` leave `acc` as
/// it was.
pub fn fallback_step<R, F, MF: Fn(F, F) -> F>(merge: &MF, acc: F, outcome: BehaviorResult<R, F>) -> (r:
    Result<F, R>)
    requires
        forall|a: F, b: F| merge.requires((a, b)),
    ensures
        match outcome {
            BehaviorResult::Failure(v) => r is Ok && call_ensures(*merge, (acc, v), r->Ok_0),
            BehaviorResult::Success(s) => r == Err::<F, R>(s),
            _ => r == Ok::<F, R>(acc),
        },
{
    match outcome {
        BehaviorResult::Failure(v) => Ok(merge(acc, v)),
        BehaviorResult::Success(s) => Err(s),
        _ => Ok(acc),
    }
}

} // verus!
