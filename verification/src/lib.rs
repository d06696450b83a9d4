//! A combinator for driving a batch of homogeneous asynchronous operations to
//! completion each iteration of an event loop while reusing the backing
//! storage across iterations, plus a small round-trip-delay statistic kept by
//! the surrounding probe.

pub mod merge_future;
pub mod packet;
pub mod statistic;
