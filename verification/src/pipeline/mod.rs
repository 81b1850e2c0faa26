pub mod context;
pub mod engine;
