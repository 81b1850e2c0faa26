pub mod token_counter;
pub mod audit;
pub mod metrics;
