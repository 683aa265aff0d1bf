//! Reusable text prompts: a template grammar whose placeholders name
//! arguments and other stored prompts, and a renderer that substitutes the
//! arguments and resolves the references, guarding against cycles and deep
//! nesting.

pub mod text;
pub mod parser;
pub mod prompt;
pub mod arguments;
pub mod storage;
pub mod cli;
