use vstd::prelude::*;

pub mod dsl;
pub mod graph;
pub mod text;
pub mod ucm;
pub mod settings;
pub mod validate;
pub mod order;
pub mod semantic;
pub mod pipeline;
pub mod llm;
pub mod render;
pub mod analyzer;
pub mod testrun;
pub mod state;
pub mod commands;
