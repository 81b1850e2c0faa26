pub mod validate;
pub mod handler;
pub mod upstream;
pub mod flow;
