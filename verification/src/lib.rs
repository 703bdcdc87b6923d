//! Synthesizes one reusable selection fragment per named type of a schema.
//!
//! The caller hands over a resolved [`TypeRegistry`]; [`generate`] orders the
//! interfaces so that each follows the interfaces it implements, classifies
//! every field by its underlying named type, leaves out what a type inherits
//! from an interface, and renders the fragments as text.

pub mod arguments;
pub mod error;
pub mod fragment;
pub mod generator;
pub mod laws;
pub mod schema;
pub mod text;

pub use error::FragmentGeneratorError;
pub use fragment::{FragmentGenerator, ResolvedEntry, ResolvedFieldSet};
pub use generator::generate;
pub use schema::{
    FieldDefinition, InputValueDefinition, Scalarity, TypeDefinition, TypeKind, TypeRef,
    TypeRegistry,
};
