//! In-memory queues: a linked first-in, first-out queue, and a priority
//! queue that weighs each element by several features at once.
pub mod queue;
