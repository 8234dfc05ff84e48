//! Queue types and the capability they share.
pub mod describe;
pub mod fifoqueue;
pub mod occupancy;
pub mod priorityqueue;
pub mod queue;

pub use fifoqueue::FIFOQueue;
pub use fifoqueue::Node;
pub use priorityqueue::Feature;
pub use priorityqueue::PriorityQueue;
pub use priorityqueue::PriorityQueueConfig;
pub use queue::Enqueue;
pub use queue::Queue;
