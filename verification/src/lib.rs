//! Order bookkeeping, shared-state merging and dispatch decisions for a
//! group of cooperating elevator controllers.

pub mod collections;
pub mod elevator_id;
pub mod memory;
pub mod hallorder_decision;
pub mod hardware;
pub mod hardware_execution;
pub mod laws;
pub mod message;
