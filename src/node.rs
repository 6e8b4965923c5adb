use vstd::prelude::*;

verus! {

/// The outcome of one tick of a behavior node.
///
/// `R` is carried on success and `F` on failure. `Idle` and `Running` are
/// not terminal: the composite nodes of this library pass over them.
#[derive(PartialEq, Eq, Debug)]
pub enum BehaviorResult<R, F> {
    Idle,
    Running,
    Success(R),
    Failure(F),
}

/// The capability every node of a tree has: it can be ticked with a payload.
pub trait BehaviorNodeBase<Payload, R, F> {
    /// Whether a tick of this node, in its present state, with `payload`,
    /// may give `r`. A node that states nothing may give any result.
    open spec fn may_return(&self, payload: Payload, r: BehaviorResult<R, F>) -> bool {
        true
    }

    /// Runs one evaluation step of this node.
    fn tick(&mut self, payload: Payload) -> (r: BehaviorResult<R, F>)
        ensures
            old(self).may_return(payload, r),
    ;
}

/// Each outcome among `outs` is one that the child at its place may give
/// on a clone of `payload`.
pub open spec fn ticked_on_clones<'a, P: Clone, R, F>(
    kids: Seq<Box<dyn BehaviorNodeBase<P, R, F> + 'a>>,
    payload: P,
    outs: Seq<BehaviorResult<R, F>>,
) -> bool {
    &&& outs.len() <= kids.len()
    &&& forall|i: int|
        0 <= i < outs.len() ==> exists|p: P| cloned(payload, p) && kids[i].may_return(p, #[trigger] outs[i])
}

/// Each outcome among `outs` is one that the child at its place may give on
/// `payload` itself.
pub open spec fn ticked_on<'a, P, R, F>(
    kids: Seq<Box<dyn BehaviorNodeBase<P, R, F> + 'a>>,
    payload: P,
    outs: Seq<BehaviorResult<R, F>>,
) -> bool {
    &&& outs.len() <= kids.len()
    &&& forall|i: int| 0 <= i < outs.len() ==> kids[i].may_return(payload, #[trigger] outs[i])
}

/// `after` has the length of `before` and agrees with it from index `k` on:
/// those children were not ticked.
pub open spec fn unchanged_from<T>(before: Seq<T>, after: Seq<T>, k: int) -> bool {
    &&& after.len() == before.len()
    &&& forall|j: int| k <= j < before.len() ==> after[j] == before[j]
}

} // verus!
