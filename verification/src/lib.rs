use vstd::prelude::*;

pub mod args;
pub mod client;
pub mod generate;
pub mod json;
pub mod json_schema;
pub mod model;
pub mod multipart;
pub mod names;
pub mod openapi;
pub mod overlay;
pub mod plan;
pub mod readback;
pub mod reach;
pub mod reading;
pub mod reduce;
pub mod request;
pub mod required;
pub mod resolve;
pub mod scalar;
pub mod schema;
pub mod summary;
pub mod template;
pub mod text;
pub mod transport;
pub mod tree;
pub mod values;
pub mod wrappers;

pub use client::NoContent;
pub use model::{Body, Document, Effect, Field, Location, Operation, Param, COMMIT, JSON_BODY, RAW_BODY};
pub use names::{kebab, CommandName};
pub use plan::{Plan, PlanError};
pub use reduce::LoadError;
pub use request::{render, Invocation, ValueError};
pub use scalar::Scalar;
pub use values::{Part, Payload, Values};

/// The builder macro's crate, for generated wrappers to name through this one.
pub use bon;
/// The regex engine generated types name through this one.
pub use regress;

verus! {

} // verus!
