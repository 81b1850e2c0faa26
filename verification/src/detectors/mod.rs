pub mod prompt;
pub mod tool_call;
pub mod system_prompt;
pub mod dlp;
pub mod injection;
pub mod output_sanitizer;
pub mod token_budget;
pub mod rate_limiter;
