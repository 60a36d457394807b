//! QB: compiled scripts and the structured values they hold.
pub mod component;
pub mod display;
pub mod encoding;
pub mod error;
pub mod laws;
pub mod nodearray;
pub mod parser;
pub mod symbols;
pub mod token;
pub mod script;

pub use script::Qb;
