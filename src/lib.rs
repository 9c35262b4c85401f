//! An ordered index of device records, kept as an unbalanced binary tree
//! keyed by each record's numeric identifier.
//!
//! Records whose identifier is greater than or equal to a node's go to its
//! left; smaller ones go to its right. Lookup follows the same convention,
//! so an in-order walk lists records from the largest identifier down.

pub mod laws;
pub mod model;
pub mod tree;

pub use model::{DeviceView, TreeModel};
pub use tree::{BinarySearchTree, IoTDevice};
