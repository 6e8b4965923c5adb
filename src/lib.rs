//! Behavior-tree evaluation: composable control-flow nodes that drive a
//! caller-owned payload through `tick` calls.
//!
//! Every node implements [`BehaviorNodeBase`]. Its `tick` returns a
//! [`BehaviorResult`], and the spec function `may_return` states which
//! results a tick may give. Composite nodes define `may_return` from their
//! children's, so the contract of a whole tree is assembled from the
//! contracts of its parts.

mod fallback;
mod laws;
mod node;
mod outcome;
mod peel;
mod sequence;

pub use fallback::{FallbackNode, FallbackNodeRef};
pub use laws::{empty_composite_law, fallback_law, peel_law, sequence_law};
pub use node::{ticked_on, ticked_on_clones, unchanged_from, BehaviorNodeBase, BehaviorResult};
pub use outcome::{failures, folds_to, has_failure, has_success, is_default, successes};
pub use outcome::{fallback_returns, fallback_step, sequence_returns, sequence_step};
pub use peel::PeelNode;
pub use sequence::{SequenceNode, SequenceNodeRef};
