use rusty_tiny_behavior_tree::{
    BehaviorNodeBase, BehaviorResult, FallbackNode, FallbackNodeRef, PeelNode, SequenceNode,
    SequenceNodeRef,
};
use std::cell::RefCell;

type Log<'a> = &'a RefCell<Vec<&'static str>>;

#[derive(Clone, Copy)]
enum Plan {
    Idle,
    Running,
    Succeed(u32),
    Fail(u32),
}

/// A leaf that writes its name to the log and gives a fixed outcome.
struct Scripted {
    name: &'static str,
    plan: Plan,
}

impl<'a> BehaviorNodeBase<Log<'a>, u32, u32> for Scripted {
    fn tick(&mut self, log: Log<'a>) -> BehaviorResult<u32, u32> {
        log.borrow_mut().push(self.name);
        match self.plan {
            Plan::Idle => BehaviorResult::Idle,
            Plan::Running => BehaviorResult::Running,
            Plan::Succeed(v) => BehaviorResult::Success(v),
            Plan::Fail(v) => BehaviorResult::Failure(v),
        }
    }
}

fn leaf_ref<'a>(name: &'static str, plan: Plan) -> Box<dyn BehaviorNodeBase<Log<'a>, u32, u32> + 'a> {
    Box::new(Scripted { name, plan })
}

fn digits(acc: u32, v: u32) -> u32 {
    acc * 10 + v
}

fn leaves<'a>(plans: &[(&'static str, Plan)]) -> Vec<Box<dyn BehaviorNodeBase<Log<'a>, u32, u32>>> {
    let mut out: Vec<Box<dyn BehaviorNodeBase<Log<'a>, u32, u32>>> = Vec::new();
    for (name, plan) in plans {
        out.push(Box::new(Scripted { name, plan: *plan }));
    }
    out
}

#[test]
fn sequence_folds_successes_left_to_right() {
    let log = RefCell::new(Vec::new());
    let mut tree = SequenceNode::new(
        leaves(&[("a", Plan::Succeed(1)), ("b", Plan::Succeed(2)), ("c", Plan::Succeed(3))]),
        digits,
    );
    assert_eq!(tree.tick(&log), BehaviorResult::Success(123));
    assert_eq!(*log.borrow(), vec!["a", "b", "c"]);
}

#[test]
fn sequence_stops_at_first_failure() {
    let log = RefCell::new(Vec::new());
    let mut tree = SequenceNode::new(
        leaves(&[
            ("a", Plan::Succeed(1)),
            ("b", Plan::Fail(7)),
            ("c", Plan::Fail(8)),
            ("d", Plan::Succeed(2)),
        ]),
        digits,
    );
    assert_eq!(tree.tick(&log), BehaviorResult::Failure(7));
    assert_eq!(*log.borrow(), vec!["a", "b"]);
}

#[test]
fn sequence_passes_over_idle_and_running() {
    let log = RefCell::new(Vec::new());
    let mut tree = SequenceNode::new(
        leaves(&[("a", Plan::Running), ("b", Plan::Succeed(4)), ("c", Plan::Idle)]),
        digits,
    );
    assert_eq!(tree.tick(&log), BehaviorResult::Success(4));
    assert_eq!(*log.borrow(), vec!["a", "b", "c"]);
}

#[test]
fn fallback_stops_at_first_success() {
    let log = RefCell::new(Vec::new());
    let mut tree = FallbackNode::new(
        leaves(&[("a", Plan::Fail(1)), ("b", Plan::Succeed(5)), ("c", Plan::Succeed(6))]),
        digits,
    );
    assert_eq!(tree.tick(&log), BehaviorResult::Success(5));
    assert_eq!(*log.borrow(), vec!["a", "b"]);
}

#[test]
fn fallback_folds_failures_left_to_right() {
    let log = RefCell::new(Vec::new());
    let mut tree = FallbackNode::new(
        leaves(&[("a", Plan::Fail(1)), ("b", Plan::Running), ("c", Plan::Fail(2)), ("d", Plan::Fail(3))]),
        digits,
    );
    assert_eq!(tree.tick(&log), BehaviorResult::Failure(123));
    assert_eq!(*log.borrow(), vec!["a", "b", "c", "d"]);
}

#[test]
fn ref_variants_follow_the_same_rules() {
    let log = RefCell::new(Vec::new());
    let mut seq = SequenceNodeRef::<RefCell<Vec<&'static str>>, u32, u32, _>::new(
        vec![
            leaf_ref("a", Plan::Succeed(4)),
            leaf_ref("b", Plan::Fail(9)),
            leaf_ref("c", Plan::Succeed(5)),
        ],
        digits,
    );
    assert_eq!(seq.tick(&log), BehaviorResult::Failure(9));
    let mut fb = FallbackNodeRef::<RefCell<Vec<&'static str>>, u32, u32, _>::new(
        vec![
            leaf_ref("d", Plan::Fail(4)),
            leaf_ref("e", Plan::Fail(2)),
        ],
        digits,
    );
    assert_eq!(fb.tick(&log), BehaviorResult::Failure(42));
    assert_eq!(*log.borrow(), vec!["a", "b", "d", "e"]);
}

#[test]
fn empty_sequence_succeeds_with_default() {
    let log = RefCell::new(Vec::new());
    let mut tree = SequenceNode::new(leaves(&[]), digits);
    assert_eq!(tree.tick(&log), BehaviorResult::Success(0));
    let mut tree_ref = SequenceNodeRef::<RefCell<Vec<&'static str>>, u32, u32, _>::new(vec![], digits);
    assert_eq!(tree_ref.tick(&log), BehaviorResult::Success(0));
    assert!(log.borrow().is_empty());
}

#[test]
fn empty_fallback_fails_with_default() {
    let log = RefCell::new(Vec::new());
    let mut tree = FallbackNode::new(leaves(&[]), digits);
    assert_eq!(tree.tick(&log), BehaviorResult::Failure(0));
    let mut tree_ref = FallbackNodeRef::<RefCell<Vec<&'static str>>, u32, u32, _>::new(vec![], digits);
    assert_eq!(tree_ref.tick(&log), BehaviorResult::Failure(0));
    assert!(log.borrow().is_empty());
}

#[test]
fn every_tick_starts_from_the_first_child() {
    let log = RefCell::new(Vec::new());
    let mut tree = SequenceNode::new(leaves(&[("a", Plan::Succeed(1)), ("b", Plan::Fail(2))]), digits);
    assert_eq!(tree.tick(&log), BehaviorResult::Failure(2));
    assert_eq!(tree.tick(&log), BehaviorResult::Failure(2));
    assert_eq!(*log.borrow(), vec!["a", "b", "a", "b"]);
}

#[test]
fn nested_composites_tick_through_the_trait() {
    let log = RefCell::new(Vec::new());
    let inner = SequenceNodeRef::<RefCell<Vec<&'static str>>, u32, u32, _>::new(
        vec![leaf_ref("b", Plan::Succeed(1)), leaf_ref("c", Plan::Fail(6))],
        digits,
    );
    let mut tree = FallbackNodeRef::<RefCell<Vec<&'static str>>, u32, u32, _>::new(
        vec![leaf_ref("a", Plan::Fail(3)), Box::new(inner), leaf_ref("d", Plan::Succeed(8))],
        digits,
    );
    assert_eq!(tree.tick(&log), BehaviorResult::Success(8));
    assert_eq!(*log.borrow(), vec!["a", "b", "c", "d"]);
}

/// Adds one to the shared counter and reports the new value.
struct Bump;

impl<'a> BehaviorNodeBase<&'a RefCell<u32>, Vec<u32>, ()> for Bump {
    fn tick(&mut self, counter: &'a RefCell<u32>) -> BehaviorResult<Vec<u32>, ()> {
        *counter.borrow_mut() += 1;
        BehaviorResult::Success(vec![*counter.borrow()])
    }
}

/// Reports the counter as it sees it.
struct Peek;

impl<'a> BehaviorNodeBase<&'a RefCell<u32>, Vec<u32>, ()> for Peek {
    fn tick(&mut self, counter: &'a RefCell<u32>) -> BehaviorResult<Vec<u32>, ()> {
        BehaviorResult::Success(vec![*counter.borrow()])
    }
}

fn append(mut acc: Vec<u32>, mut next: Vec<u32>) -> Vec<u32> {
    acc.append(&mut next);
    acc
}

#[test]
fn ref_children_see_earlier_mutations() {
    let counter = RefCell::new(0u32);
    let mut tree = SequenceNodeRef::<RefCell<u32>, Vec<u32>, (), _>::new(
        vec![Box::new(Bump), Box::new(Peek), Box::new(Bump), Box::new(Peek)],
        append,
    );
    assert_eq!(tree.tick(&counter), BehaviorResult::Success(vec![1, 1, 2, 2]));
    assert_eq!(*counter.borrow(), 2);
}

/// Grows its own copy of the payload and reports the copy's length.
struct Grow;

impl BehaviorNodeBase<Vec<u32>, Vec<u32>, ()> for Grow {
    fn tick(&mut self, mut payload: Vec<u32>) -> BehaviorResult<Vec<u32>, ()> {
        payload.push(0);
        BehaviorResult::Success(vec![payload.len() as u32])
    }
}

/// Reports the length of its copy of the payload.
struct Measure;

impl BehaviorNodeBase<Vec<u32>, Vec<u32>, ()> for Measure {
    fn tick(&mut self, payload: Vec<u32>) -> BehaviorResult<Vec<u32>, ()> {
        BehaviorResult::Success(vec![payload.len() as u32])
    }
}

#[test]
fn value_children_get_independent_copies() {
    let payload = vec![7u32];
    let mut tree = SequenceNode::<Vec<u32>, Vec<u32>, (), _>::new(
        vec![Box::new(Grow), Box::new(Measure), Box::new(Grow)],
        append,
    );
    assert_eq!(tree.tick(payload.clone()), BehaviorResult::Success(vec![2, 1, 2]));
    assert_eq!(payload, vec![7]);
}

/// Doubles the number it is given; fails on zero and waits on one.
struct Double;

impl<'a> BehaviorNodeBase<&'a u32, u32, u32> for Double {
    fn tick(&mut self, x: &'a u32) -> BehaviorResult<u32, u32> {
        match *x {
            0 => BehaviorResult::Failure(0),
            1 => BehaviorResult::Running,
            n => BehaviorResult::Success(2 * n),
        }
    }
}

fn second(pair: &(u32, u32)) -> &u32 {
    &pair.1
}

#[test]
fn peel_matches_ticking_the_child_directly() {
    for pair in [(5u32, 21u32), (5, 0), (9, 1)] {
        let mut peeled = PeelNode::new(Double, second as for<'x> fn(&'x (u32, u32)) -> &'x u32);
        let mut direct = Double;
        let expected = direct.tick(second(&pair));
        assert_eq!(peeled.tick(&pair), expected);
    }
    let mut peeled = PeelNode::new(Double, second as for<'x> fn(&'x (u32, u32)) -> &'x u32);
    assert_eq!(peeled.tick(&(3, 21)), BehaviorResult::Success(42));
    assert_eq!(peeled.tick(&(3, 0)), BehaviorResult::Failure(0));
    assert_eq!(peeled.tick(&(3, 1)), BehaviorResult::Running);
}
