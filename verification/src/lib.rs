//! Data structures described as OpenAPI-style schema documents.
//!
//! A field's textual type signature (for example `Vec<Option<String>>`) is
//! parsed into a [`Type`] tree, the tree is rendered into a nested
//! [`JsonValue`], and the object schemas of many structures are collected in a
//! [`SchemaRegistry`] whose export is one flat JSON object.

pub mod classify;
pub mod json;
pub mod parse;
pub mod schema;
pub mod types;

pub use classify::into_json_type;
pub use classify::spec_classify;
pub use json::JsonModel;
pub use json::JsonValue;
pub use parse::SchemaError;
pub use parse::parse;
pub use parse::split_generics;
pub use schema::Field;
pub use schema::Schema;
pub use schema::SchemaMeta;
pub use schema::SchemaRegistry;
pub use schema::build_object_schema;
pub use types::Type;
pub use types::TypeModel;
