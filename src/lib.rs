//! Reconciliation of two immutable node trees into a stream of edits.
pub mod attrs;
pub mod diff;
pub mod log;
pub mod script;
pub mod types;
pub mod writer;

pub use attrs::AttrChange;
pub use diff::{diff, reconcile_children};
pub use log::{EditLog, EditOp};
pub use script::Step;
pub use types::{AttrValue, Attrs, Element, Node, NodePtr};
pub use writer::{DiffWriter, Edit, ElementView};
