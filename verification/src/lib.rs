//! Shader Crusher: a GLSL minifier. It parses a shader, binds every name to
//! its declaration, gives the renamable ones short names, prints the tree
//! with minimal whitespace and checks its own output.
pub mod builtins;
mod equality;
pub mod error;
pub mod lexer;
pub mod names;
pub mod options;
pub mod parser;
pub mod preprocess;
pub mod printer;
pub mod protect;
pub mod scan;
pub mod rename;
pub mod scope;
pub mod selfcheck;
pub mod shadercrusher;
pub mod simplify;
pub mod syntax;
pub mod text;
pub mod walk;

pub use error::CrushError;
pub use options::{Options, Rewrites, Scoring};
pub use shadercrusher::{crush_str, Stats, ShaderCrusher};
