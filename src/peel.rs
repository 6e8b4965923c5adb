use crate::node::{BehaviorNodeBase, BehaviorResult};
use core::marker::PhantomData;
use vstd::prelude::*;

verus! {

/// A projection that can be called on every parent payload.
#[verifier::reject_recursive_types(Parent)]
#[verifier::reject_recursive_types(Child)]
struct Projection<Parent, Child, G: Fn(Parent) -> Child> {
    f: G,
    payloads: PhantomData<(Parent, Child)>,
}

impl<Parent, Child, G: Fn(Parent) -> Child> Projection<Parent, Child, G> {
    /// The projection can be called on any parent payload.
    #[verifier::type_invariant]
    spec fn is_total(self) -> bool {
        forall|p: Parent| self.f.requires((p,))
    }

    /// Projects `p`.
    fn apply(&self, p: Parent) -> (c: Child)
        ensures
            call_ensures(self.f, (p,), c),
    {
        proof {
            use_type_invariant(self);
        }
        (self.f)(p)
    }
}

/// Lets a node written for a narrow payload take part in a tree driven by a
/// wider one: each tick projects the parent payload with `peel` and hands the
/// result to the child, whose outcome passes through unchanged.
#[verifier::reject_recursive_types(Parent)]
#[verifier::reject_recursive_types(Child)]
pub struct PeelNode<Parent, Child, T, G: Fn(Parent) -> Child> {
    child: T,
    peel: Projection<Parent, Child, G>,
}

impl<Parent, Child, T, G: Fn(Parent) -> Child> PeelNode<Parent, Child, T, G> {
    /// The wrapped node.
    pub closed spec fn child(self) -> T {
        self.child
    }

    /// The projection from the parent payload to the child's.
    pub closed spec fn peel(self) -> G {
        self.peel.f
    }

    /// Wraps `child`, which will see each payload through `peel`.
    pub fn new(child: T, peel: G) -> (s: Self)
        requires
            forall|p: Parent| peel.requires((p,)),
        ensures
            s.child() == child,
            s.peel() == peel,
    {
        PeelNode { child, peel: Projection { f: peel, payloads: PhantomData } }
    }
}

impl<Parent, Child, R, F, T: BehaviorNodeBase<Child, R, F>, G: Fn(Parent) -> Child> BehaviorNodeBase<
    Parent,
    R,
    F,
> for PeelNode<Parent, Child, T, G> {
    /// Whatever the child may return on the projection of `payload`.
    open spec fn may_return(&self, payload: Parent, r: BehaviorResult<R, F>) -> bool {
        exists|c: Child|
            call_ensures(self.peel(), (payload,), c) && #[trigger] self.child().may_return(c, r)
    }

    /// Ticks the child with the projection of `payload` and returns what it
    /// returned.
    fn tick(&mut self, payload: Parent) -> (r: BehaviorResult<R, F>) {
        let c = self.peel.apply(payload);
        let r = self.child.tick(c);
        assert(old(self).child().may_return(c, r));
        r
    }
}

} // verus!
