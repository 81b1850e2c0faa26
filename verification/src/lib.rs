pub mod json;
pub mod text;
pub mod detectors;
pub mod errors;
pub mod proxy;
pub mod config;
pub mod pipeline;
pub mod ordered;
pub mod matching;
pub mod utils;
