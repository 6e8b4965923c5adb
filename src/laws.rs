use crate::node::{BehaviorNodeBase, BehaviorResult};
use crate::outcome::{
    failures, fallback_returns, folds_to, has_failure, has_success, sequence_returns, successes,
};
use crate::peel::PeelNode;
use vstd::prelude::*;

verus! {

/// A Sequence whose children would give `all`, in order, ticks a prefix of
/// them. When none of them fails it ticks all of them and succeeds with the
/// fold of their successes. When some fails, it stops at the first failing
/// child and returns that child's failure.
pub proof fn sequence_law<R, F, MR: Fn(R, R) -> R>(
    merge: MR,
    init: R,
    all: Seq<BehaviorResult<R, F>>,
    outs: Seq<BehaviorResult<R, F>>,
    r: BehaviorResult<R, F>,
)
    requires
        outs.len() <= all.len(),
        outs == all.take(outs.len() as int),
        sequence_returns(merge, init, all.len(), outs, r),
    ensures
        !has_failure(all) ==> outs == all && r is Success && folds_to(
            merge,
            init,
            successes(all),
            r->Success_0,
        ),
        forall|k: int|
            0 <= k < all.len() && (#[trigger] all[k]) is Failure && !has_failure(all.take(k))
                ==> outs.len() == k + 1 && r == all[k],
{
    if !has_failure(all) {
        if outs.len() < all.len() {
            assert(outs.last() == all[outs.len() - 1]);
        }
        assert(outs =~= all);
    }
    assert forall|k: int|
        0 <= k < all.len() && (#[trigger] all[k]) is Failure && !has_failure(all.take(k)) implies
            outs.len() == k + 1 && r == all[k] by {
        if outs.len() == all.len() && !has_failure(outs) {
            assert(outs[k] == all[k]);
        } else {
            let m = outs.len() - 1;
            assert(outs[m] == all[m]);
            if m < k {
                assert(all.take(k)[m] == all[m]);
            } else if m > k {
                assert(outs.drop_last()[k] == all[k]);
            }
        }
    }
}

/// A Fallback whose children would give `all`, in order, ticks a prefix of
/// them. When none of them succeeds it ticks all of them and fails with the
/// fold of their failures. When some succeeds, it stops at the first
/// succeeding child and returns that child's success.
pub proof fn fallback_law<R, F, MF: Fn(F, F) -> F>(
    merge: MF,
    init: F,
    all: Seq<BehaviorResult<R, F>>,
    outs: Seq<BehaviorResult<R, F>>,
    r: BehaviorResult<R, F>,
)
    requires
        outs.len() <= all.len(),
        outs == all.take(outs.len() as int),
        fallback_returns(merge, init, all.len(), outs, r),
    ensures
        !has_success(all) ==> outs == all && r is Failure && folds_to(
            merge,
            init,
            failures(all),
            r->Failure_0,
        ),
        forall|k: int|
            0 <= k < all.len() && (#[trigger] all[k]) is Success && !has_success(all.take(k))
                ==> outs.len() == k + 1 && r == all[k],
{
    if !has_success(all) {
        if outs.len() < all.len() {
            assert(outs.last() == all[outs.len() - 1]);
        }
        assert(outs =~= all);
    }
    assert forall|k: int|
        0 <= k < all.len() && (#[trigger] all[k]) is Success && !has_success(all.take(k)) implies
            outs.len() == k + 1 && r == all[k] by {
        if outs.len() == all.len() && !has_success(outs) {
            assert(outs[k] == all[k]);
        } else {
            let m = outs.len() - 1;
            assert(outs[m] == all[m]);
            if m < k {
                assert(all.take(k)[m] == all[m]);
            } else if m > k {
                assert(outs.drop_last()[k] == all[k]);
            }
        }
    }
}

/// A Sequence over no children succeeds with its initial accumulator, and a
/// Fallback over no children fails with its initial accumulator.
pub proof fn empty_composite_law<R, F, MR: Fn(R, R) -> R, MF: Fn(F, F) -> F>(
    merge_r: MR,
    init_r: R,
    merge_f: MF,
    init_f: F,
    outs: Seq<BehaviorResult<R, F>>,
    r: BehaviorResult<R, F>,
)
    ensures
        sequence_returns(merge_r, init_r, 0, outs, r) ==> r == BehaviorResult::<R, F>::Success(
            init_r,
        ),
        fallback_returns(merge_f, init_f, 0, outs, r) ==> r == BehaviorResult::<R, F>::Failure(
            init_f,
        ),
{
    assert(outs.len() == 0 ==> successes(outs) == Seq::<R>::empty());
    assert(outs.len() == 0 ==> failures(outs) == Seq::<F>::empty());
}

/// A peel-wrapped node may give exactly what the wrapped node may give when
/// ticked directly with the projected payload.
pub proof fn peel_law<Parent, Child, R, F, T: BehaviorNodeBase<Child, R, F>, G: Fn(Parent) -> Child>(
    node: PeelNode<Parent, Child, T, G>,
    payload: Parent,
    projected: Child,
    r: BehaviorResult<R, F>,
)
    requires
        forall|c: Child| call_ensures(node.peel(), (payload,), c) ==> c == projected,
        call_ensures(node.peel(), (payload,), projected),
    ensures
        node.may_return(payload, r) <==> node.child().may_return(projected, r),
{
}

} // verus!
