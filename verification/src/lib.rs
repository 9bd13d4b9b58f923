//! Inference of a relational data model from the schema of a database:
//! models with scalar and relation fields, index declarations and enums,
//! from tables, columns, foreign keys and indices.

pub mod names;
pub mod error;
pub mod schema;
pub mod datamodel;
pub mod filters;
pub mod fields;
pub mod indexes;
pub mod models;
pub mod synthesis;
pub mod assembly;
pub mod guardrails;
pub mod calculate_datamodel;
pub mod migration;
pub mod structure;
pub mod laws;
pub mod pairing;
pub mod sequences;
