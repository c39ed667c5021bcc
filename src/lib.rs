//! Moves documentation comments of Rust sources into a sidecar text file and
//! puts them back where they belong.

pub mod consts;
pub mod events;
pub mod laws;
pub mod lexer;
pub mod regenerate;
pub mod strip;
pub mod text;
pub mod types;
pub mod utils;
pub mod workspace;
