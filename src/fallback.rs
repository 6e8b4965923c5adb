use crate::node::{ticked_on, ticked_on_clones, unchanged_from, BehaviorNodeBase, BehaviorResult};
use crate::outcome::{
    failures, fallback_returns, fallback_step, folds_to, has_success, is_default,
    lemma_failures_step, lemma_push_nonterminal,
};
use vstd::prelude::*;

verus! {

/// Runs its children in order and fails when none succeeds: it returns the
/// first success, or the failures folded with `merge_result`.
///
/// Each child is ticked with its own clone of the payload.
#[verifier::reject_recursive_types(Payload)]
#[verifier::reject_recursive_types(R)]
#[verifier::reject_recursive_types(F)]
pub struct FallbackNode<Payload, R, F, MR: Fn(F, F) -> F> {
    children: Vec<Box<dyn BehaviorNodeBase<Payload, R, F>>>,
    merge_result: MR,
}

impl<Payload, R, F, MR: Fn(F, F) -> F> FallbackNode<Payload, R, F, MR> {
    /// The merge function can be called on any two values.
    #[verifier::type_invariant]
    spec fn merge_is_total(self) -> bool {
        forall|a: F, b: F| self.merge_result.requires((a, b))
    }

    /// The children, in the order they are ticked.
    pub closed spec fn kids(self) -> Seq<Box<dyn BehaviorNodeBase<Payload, R, F>>> {
        self.children@
    }

    /// The function that folds a child's failure into the accumulator.
    pub closed spec fn merge(self) -> MR {
        self.merge_result
    }

    /// Builds a Fallback over `children`, in that order, folding failures
    /// with `merge_result`.
    pub fn new(children: Vec<Box<dyn BehaviorNodeBase<Payload, R, F>>>, merge_result: MR) -> (s:
        Self)
        requires
            forall|a: F, b: F| merge_result.requires((a, b)),
        ensures
            s.kids() == children@,
            s.merge() == merge_result,
    {
        FallbackNode { children, merge_result }
    }
}

impl<Payload: Clone, R, F: Default, MR: Fn(F, F) -> F> FallbackNode<Payload, R, F, MR> {
    /// Ticks the children in order, each with a clone of `payload`, until one
    /// succeeds; the children after that one are left untouched.
    pub fn tick(&mut self, payload: Payload) -> (r: BehaviorResult<R, F>)
        ensures
            final(self).merge() == old(self).merge(),
            exists|outs: Seq<BehaviorResult<R, F>>, d: F|
                {
                    &&& is_default(d)
                    &&& ticked_on_clones(old(self).kids(), payload, outs)
                    &&& fallback_returns(old(self).merge(), d, old(self).kids().len(), outs, r)
                    &&& unchanged_from(old(self).kids(), final(self).kids(), outs.len() as int)
                },
    {
        proof {
            use_type_invariant(&*self);
        }
        let mut acc = F::default();
        let ghost d = acc;
        let ghost kids0 = self.children@;
        let ghost mut outs = Seq::<BehaviorResult<R, F>>::empty();
        let n = self.children.len();
        let mut i: usize = 0;
        while i < n
            invariant
                n == kids0.len(),
                i <= n,
                outs.len() == i,
                kids0 == old(self).kids(),
                self.merge_result == old(self).merge_result,
                forall|a: F, b: F| self.merge_result.requires((a, b)),
                is_default(d),
                ticked_on_clones(kids0, payload, outs),
                !has_success(outs),
                folds_to(self.merge_result, d, failures(outs), acc),
                unchanged_from(kids0, self.children@, i as int),
            decreases n - i,
        {
            let p = payload.clone();
            assert(cloned(payload, p));
            let ghost child = self.children@[i as int];
            let res = self.children[i].tick(p);
            assert(child.may_return(p, res));
            let ghost prev = outs;
            proof {
                outs = outs.push(res);
                assert(outs.drop_last() =~= prev);
            }
            let ghost before = acc;
            match fallback_step(&self.merge_result, acc, res) {
                Ok(next) => {
                    acc = next;
                    proof {
                        match outs.last() {
                            BehaviorResult::Failure(v) => lemma_failures_step(
                                self.merge_result,
                                d,
                                prev,
                                v,
                                before,
                                acc,
                            ),
                            _ => lemma_push_nonterminal(prev, outs.last()),
                        }
                    }
                },
                Err(end) => {
                    assert(fallback_returns(
                        self.merge_result,
                        d,
                        n as nat,
                        outs,
                        BehaviorResult::Success(end),
                    ));
                    assert(ticked_on_clones(kids0, payload, outs));
                    assert(unchanged_from(kids0, self.children@, outs.len() as int));
                    return BehaviorResult::Success(end);
                },
            }
            i = i + 1;
        }
        assert(fallback_returns(self.merge_result, d, n as nat, outs, BehaviorResult::Failure(acc)));
        BehaviorResult::Failure(acc)
    }
}

impl<Payload: Clone, R, F: Default, MR: Fn(F, F) -> F> BehaviorNodeBase<Payload, R, F> for FallbackNode<
    Payload,
    R,
    F,
    MR,
> {
    /// The result of a Fallback whose children, ticked in order on clones
    /// of `payload`, gave outcomes they may give.
    open spec fn may_return(&self, payload: Payload, r: BehaviorResult<R, F>) -> bool {
        exists|outs: Seq<BehaviorResult<R, F>>, d: F|
            {
                &&& is_default(d)
                &&& ticked_on_clones(self.kids(), payload, outs)
                &&& fallback_returns(self.merge(), d, self.kids().len(), outs, r)
            }
    }

    fn tick(&mut self, payload: Payload) -> (r: BehaviorResult<R, F>) {
        FallbackNode::tick(self, payload)
    }
}

/// A Fallback that hands every child the same shared reference to the
/// payload, so that children see what earlier siblings changed in it through
/// interior mutability.
#[verifier::reject_recursive_types(Payload)]
#[verifier::reject_recursive_types(R)]
#[verifier::reject_recursive_types(F)]
pub struct FallbackNodeRef<'a, Payload, R, F, MR: Fn(F, F) -> F> {
    children: Vec<Box<dyn BehaviorNodeBase<&'a Payload, R, F> + 'a>>,
    merge_result: MR,
}

impl<'a, Payload, R, F, MR: Fn(F, F) -> F> FallbackNodeRef<'a, Payload, R, F, MR> {
    /// The merge function can be called on any two values.
    #[verifier::type_invariant]
    spec fn merge_is_total(self) -> bool {
        forall|a: F, b: F| self.merge_result.requires((a, b))
    }

    /// The children, in the order they are ticked.
    pub closed spec fn kids(self) -> Seq<Box<dyn BehaviorNodeBase<&'a Payload, R, F> + 'a>> {
        self.children@
    }

    /// The function that folds a child's failure into the accumulator.
    pub closed spec fn merge(self) -> MR {
        self.merge_result
    }

    /// Builds a Fallback over `children`, in that order, folding failures
    /// with `merge_result`.
    pub fn new(
        children: Vec<Box<dyn BehaviorNodeBase<&'a Payload, R, F> + 'a>>,
        merge_result: MR,
    ) -> (s: Self)
        requires
            forall|a: F, b: F| merge_result.requires((a, b)),
        ensures
            s.kids() == children@,
            s.merge() == merge_result,
    {
        FallbackNodeRef { children, merge_result }
    }
}

impl<'a, Payload, R, F: Default, MR: Fn(F, F) -> F> FallbackNodeRef<'a, Payload, R, F, MR> {
    /// Ticks the children in order, each with `payload`, until one
    /// succeeds; the children after that one are left untouched.
    pub fn tick(&mut self, payload: &'a Payload) -> (r: BehaviorResult<R, F>)
        ensures
            final(self).merge() == old(self).merge(),
            exists|outs: Seq<BehaviorResult<R, F>>, d: F|
                {
                    &&& is_default(d)
                    &&& ticked_on(old(self).kids(), payload, outs)
                    &&& fallback_returns(old(self).merge(), d, old(self).kids().len(), outs, r)
                    &&& unchanged_from(old(self).kids(), final(self).kids(), outs.len() as int)
                },
    {
        proof {
            use_type_invariant(&*self);
        }
        let mut acc = F::default();
        let ghost d = acc;
        let ghost kids0 = self.children@;
        let ghost mut outs = Seq::<BehaviorResult<R, F>>::empty();
        let n = self.children.len();
        let mut i: usize = 0;
        while i < n
            invariant
                n == kids0.len(),
                i <= n,
                outs.len() == i,
                kids0 == old(self).kids(),
                self.merge_result == old(self).merge_result,
                forall|a: F, b: F| self.merge_result.requires((a, b)),
                is_default(d),
                ticked_on(kids0, payload, outs),
                !has_success(outs),
                folds_to(self.merge_result, d, failures(outs), acc),
                unchanged_from(kids0, self.children@, i as int),
            decreases n - i,
        {
            let ghost child = self.children@[i as int];
            let res = self.children[i].tick(payload);
            assert(child.may_return(payload, res));
            let ghost prev = outs;
            proof {
                outs = outs.push(res);
                assert(outs.drop_last() =~= prev);
            }
            let ghost before = acc;
            match fallback_step(&self.merge_result, acc, res) {
                Ok(next) => {
                    acc = next;
                    proof {
                        match outs.last() {
                            BehaviorResult::Failure(v) => lemma_failures_step(
                                self.merge_result,
                                d,
                                prev,
                                v,
                                before,
                                acc,
                            ),
                            _ => lemma_push_nonterminal(prev, outs.last()),
                        }
                    }
                },
                Err(end) => {
                    assert(fallback_returns(
                        self.merge_result,
                        d,
                        n as nat,
                        outs,
                        BehaviorResult::Success(end),
                    ));
                    assert(ticked_on(kids0, payload, outs));
                    assert(unchanged_from(kids0, self.children@, outs.len() as int));
                    return BehaviorResult::Success(end);
                },
            }
            i = i + 1;
        }
        assert(fallback_returns(self.merge_result, d, n as nat, outs, BehaviorResult::Failure(acc)));
        BehaviorResult::Failure(acc)
    }
}

impl<'a, Payload, R, F: Default, MR: Fn(F, F) -> F> BehaviorNodeBase<&'a Payload, R, F> for FallbackNodeRef<
    'a,
    Payload,
    R,
    F,
    MR,
> {
    /// The result of a Fallback whose children, ticked in order on
    /// `payload`, gave outcomes they may give.
    open spec fn may_return(&self, payload: &'a Payload, r: BehaviorResult<R, F>) -> bool {
        exists|outs: Seq<BehaviorResult<R, F>>, d: F|
            {
                &&& is_default(d)
                &&& ticked_on(self.kids(), payload, outs)
                &&& fallback_returns(self.merge(), d, self.kids().len(), outs, r)
            }
    }

    fn tick(&mut self, payload: &'a Payload) -> (r: BehaviorResult<R, F>) {
        FallbackNodeRef::tick(self, payload)
    }
}

} // verus!
