//! Progress tracking and capabilities for a dataflow engine.

pub mod order;
pub mod change_batch;
pub mod antichain;
pub mod capability;
pub mod channels;
pub mod stream;
pub mod handles;
pub mod probe;
pub mod event;
