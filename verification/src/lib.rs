//! JSON Schema Language ("JSL"): schemas in canonical form, a registry that
//! tracks which documents a set of schemas still needs, and an evaluator that
//! reports where an instance departs from a schema.
//!
//! A schema arrives as a [`Serde`]: every keyword optional, nothing checked.
//! It is read from a [`Json`] value and written as one. [`Schema::from_serde`]
//! gives it one of eight forms or says why it has none. A [`Validator`] walks a [`Schema`] and a [`Json`] instance together
//! and returns a [`ValidationError`] for each place where the instance does
//! not fit, each with a path into the instance and a path into the schema.
//! A [`Registry`] holds root schemas by their identifiers and lists the
//! documents that their references still lack.
//!
//! Every function of this crate is verified with Verus against the contract
//! it carries; what holds of all inputs is stated as a proof function beside
//! the functions it speaks of. The few calls into other crates stand behind
//! small functions whose contracts are believed, not proved; each says so in
//! its doc comment.

pub mod errors;
pub mod json;
pub mod paths;
pub mod pointer;
pub mod registry;
pub mod schema;
pub mod text;
pub mod timestamp;
pub mod uri;
pub mod validator;
pub mod values;
pub mod vm;
pub mod wire;

pub use crate::errors::JslError;
pub use crate::json::Json;
pub use crate::registry::Registry;
pub use crate::schema::{Form, Schema, Serde, Serde as SerdeSchema, SerdeDiscriminator, Type};
pub use crate::validator::{Config, ValidationError, Validator};
