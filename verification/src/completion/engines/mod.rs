//! The engines that propose completions.

pub mod path_completion;
pub mod user_completion;
