//! Versioned records: field shapes that change from release to release,
//! payloads that stay readable whatever release wrote them.

pub mod chain;
pub mod diff;
pub mod envelope;
pub mod expr;
pub mod ident;
pub mod instance;
pub mod json;
pub mod laws;
pub mod model;
pub mod order;
pub mod outside;
pub mod parse;
pub mod plan;
pub mod registry;
pub mod shape;
pub mod source;
pub mod syntax;
pub mod table;
pub mod text;
pub mod value;
pub mod wire;
