//! A small HTTP serving pipeline with proved contracts: request parsing,
//! exact-match routing with a static-file fallback, response serialization
//! and a template engine with variable substitution and loop expansion.

pub mod text;
pub mod text_map;
pub mod response;
pub mod request;
pub mod router;
pub mod connection;
pub mod pattern;
pub mod template;
