//! Reconciliation and hook-state engine of a declarative UI runtime.
//!
//! A UI is declared as a tree of components that is walked again on every
//! frame. This crate keeps what has to survive between two walks: it gives
//! every visited node a structural identity, keeps the hook state of each
//! identity alive as long as the node is revisited, hands typed context values
//! down the tree and records whether anything changed so that a new frame can
//! be scheduled.

pub mod path;
pub mod trigger;
pub mod instance;
pub mod context;
pub mod registry;
pub mod appy;
pub mod element;
pub mod render;
pub mod laws;
