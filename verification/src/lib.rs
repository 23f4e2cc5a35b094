//! A 2-3 search tree: a balanced multiway search tree in which every leaf
//! sits at the same depth and every internal node holds either one key with
//! two children or two keys with three children.
//!
//! The single mutating operation is [`TTTree::insert`]. Insertion descends to
//! the position where the new key belongs, grows the node it arrives at, and
//! propagates node overflow (splitting) upward until an ancestor absorbs it
//! or a new root is made; this keeps all leaves at equal depth. Keys are
//! unique: inserting a key that is already present leaves the tree unchanged.

pub mod laws;
pub mod node;
pub mod order;
pub mod tree;

pub use tree::TTTree;
pub use node::InsertResult;
pub use node::LeafThree;
pub use node::LeafTwo;
pub use node::Node;
pub use node::SplitNode;
pub use node::Three;
pub use node::Two;
pub use order::Comparison;
pub use order::TotalOrder;
