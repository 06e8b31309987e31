//! Compiler for the sand-engine rule language: reads a document of rules,
//! types and materials and generates the shader text that implements them.

pub mod document;
pub mod error;
pub mod text;
pub mod rules;
pub mod types;
pub mod materials;
pub mod glsl;
pub mod parser;

pub use glsl::GLSLConvertible;
pub use parser::{ParsingResult, parse_string};
pub mod laws;
pub mod shaders;
