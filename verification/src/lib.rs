//! Generates a TypeScript client for a set of remote procedures.
//!
//! Endpoint descriptors ([`TsFn`]) are collected in a [`Registry`]; an
//! [`Api`] records which of them are bound to a live handler;
//! [`Api::export_ts_client`] renders the client module as text. In that text
//! the types of each endpoint stand in a namespace of their own, into which
//! [`prefix_type`] moves the names of a type expression.

pub mod api;
pub mod client;
pub mod client_laws;
pub mod descriptor;
pub mod error;
pub mod names;
pub mod order;
pub mod order_laws;
pub mod prefix_laws;
pub mod registry;
pub mod signature;
pub mod text;
pub mod type_expr;

pub use api::Api;
pub use client::render;
pub use descriptor::{Declaration, Descriptor, TsFn, TypeInfo};
pub use error::{ExportError, Failure};
pub use names::function_name;
pub use registry::Registry;
pub use signature::{plan_export, Export, Parameter, Signature, SignatureError};
pub use type_expr::{
    find_matching_delimiter, is_ts_intrinstic_type, is_type_expression, prefix_type,
    try_prefix_type,
};
