pub mod criteria;
pub mod metrics;
