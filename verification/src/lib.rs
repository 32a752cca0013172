//! Breaking-change detection between two GraphQL SDL schema documents.
//!
//! `schema` turns SDL text into a [`schema::Schema`]; `diff` compares two
//! schemas and lists the changes that can break an existing client.

pub mod classes;
pub mod text;
pub mod scan;
pub mod clean;
pub mod schema;
pub mod grammar;
pub mod diff;
pub mod laws;
pub mod reading_laws;
