//! Markup tokenizer, tree builder and conditional-inclusion rules, with
//! machine-checked contracts.

pub mod conditional;
pub mod const_util;
pub mod effects;
pub mod error;
pub mod evaluator;
pub mod evaluator_util;
pub mod file_util;
pub mod nesting;
pub mod node;
pub mod parser;
pub mod presenter;
pub mod string_map;
pub mod text;
pub mod tokenizer;
pub mod util;
