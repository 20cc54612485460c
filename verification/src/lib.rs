//! Convert Swagger 2.0 (OpenAPI v2.0) API definitions to OpenAPI 3.0.x.
//!
//! The entry points take a Swagger 2.0 document and return an OpenAPI 3.0.x
//! document. The work is a pure data transform over [`value::JsonValue`].
//! Parameters become request bodies, `securityDefinitions` becomes
//! `components.securitySchemes`, `definitions` becomes `components.schemas`,
//! and `host`/`basePath`/`schemes` become `servers`. Non-compliant JSON Schema
//! constructs are repaired in place.
//!
//! The [`Options`] struct carries both inputs and outputs and is mutated as the
//! conversion runs. Errors surface as [`S2OError`].
//!
//! # Layout
//!
//! - [`error`]: the [`S2OError`] type and the throw-or-warn policy.
//! - [`options`]: the [`Options`] input and output bag.
//! - [`json`], [`value`], [`number`]: the document model and the values that
//!   have it.
//! - [`serial`]: the JSON and YAML libraries behind that model.
//! - [`text`], [`suffix`]: text helpers and the suffixes that make a name free.
//! - [`common`]: string helpers, the 32-bit hash, and the constant tables.
//! - [`jptr`]: RFC 6901 JSON pointer get and set.
//! - [`recurse`]: order-preserving depth-first traversal with path state.
//! - [`clone`]: deep clone helpers.
//! - [`schema_walker`]: schema and subschema traversal.
//! - [`fixup`]: JSON Schema repair passes.
//! - [`status_codes`]: HTTP status reason phrases.
//! - [`yaml`]: JSON and YAML parsing.
//! - [`convert`]: the conversion orchestration and the process helpers.
//! - [`resolver`]: external `$ref` resolution.
//! - [`inlining`]: internal `$ref` resolution.
//! - [`laws`], [`path_laws`], [`pointer_laws`], [`name_laws`], [`text_laws`]: what
//!   holds of the operations on objects, paths, pointers, names and text together.
//! - [`traversal_laws`], [`repair_laws`], [`schema_laws`]: what holds of traversals and
//!   of schema repair.
//! - [`parameter_laws`], [`header_laws`], [`body_laws`], [`sharing_laws`],
//!   [`response_laws`], [`security_laws`], [`server_laws`]: what parameters, headers,
//!   request bodies, responses, security schemes and servers become.
//! - [`reference_laws`], [`placement_laws`]: where references and examples lead.
//! - [`operation_laws`], [`bucket_laws`], [`document_laws`], [`pass_laws`]: what becomes
//!   of operations, components, the head of a document, and of all of them in a pass.
//! - [`conversion_laws`], [`output_laws`], [`tolerance_laws`]: what holds of whole
//!   conversions.

use vstd::prelude::*;

pub mod body_laws;
pub mod bucket_laws;
pub mod clone;
pub mod common;
pub mod conversion_laws;
pub mod convert;
pub mod document_laws;
pub mod error;
pub mod fixup;
pub mod header_laws;
pub mod inlining;
pub mod jptr;
pub mod json;
pub mod laws;
pub mod name_laws;
pub mod number;
pub mod operation_laws;
pub mod options;
pub mod output_laws;
pub mod parameter_laws;
pub mod pass_laws;
pub mod path_laws;
pub mod placement_laws;
pub mod pointer_laws;
pub mod recurse;
pub mod reference_laws;
pub mod repair_laws;
pub mod resolver;
pub mod response_laws;
pub mod schema_laws;
pub mod schema_walker;
pub mod security_laws;
pub mod serial;
pub mod server_laws;
pub mod sharing_laws;
pub mod status_codes;
pub mod suffix;
pub mod text;
pub mod text_laws;
pub mod tolerance_laws;
pub mod traversal_laws;
pub mod value;
pub mod yaml;

pub use convert::{convert_obj, convert_str};
pub use error::S2OError;
pub use options::{Options, RefSiblings};
pub use value::JsonValue;

verus! {

/// Default `openapi` version string emitted unless `options.target_version`
/// overrides it.
pub const TARGET_VERSION: &'static str = "3.0.0";

} // verus!
