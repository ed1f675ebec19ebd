//! A small arithmetic and boolean language with `let` bindings and public
//! variables, compiled to a normal form and lowered to an arithmetic circuit.
pub mod ast;
pub mod circuit;
pub mod compiler;
pub mod declaration;
pub mod env;
pub mod error;
pub mod graph;
pub mod inliner;
pub mod interpreter;
pub mod optimizer;
pub mod parser;
pub mod program;
pub mod text;
pub mod typechecker;
