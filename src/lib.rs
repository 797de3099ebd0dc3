//! Monte Carlo estimate of the coupon-collector waiting time: how many boxes
//! must be opened until each of six prizes has turned up at least once.

pub mod source;
pub mod trial;
pub mod coordinator;
pub mod summary;
