//! A unidirectional-update UI runtime core: a declarative tree model, a
//! keyed reconciliation differ, a patcher that drives a live output target
//! through a fixed set of primitive operations, a per-cycle effect queue
//! with child-to-parent message lifting, a typed subscription registry,
//! and the update loop that ties them together.

pub mod assoc;
pub mod diff;
pub mod fetch;
pub mod live;
pub mod orders;
pub mod patcher;
pub mod runtime;
pub mod subs;
pub mod tree;
