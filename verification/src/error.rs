//! The ways in which generating a client can fail.

use vstd::prelude::*;
use vstd::string::StringExecFns;
use crate::text::{append_joined, join, texts};

verus! {

/// Why a client could not be generated.
#[derive(Debug, PartialEq, Eq)]
pub enum ExportError {
    /// A type expression holds a bracket that is never closed, or lacks an
    /// identifier where one is due. It is carried as it was given.
    MalformedTypeExpression(String),
    /// The name is already bound to a handler.
    DuplicateActivation(String),
    /// Two of the endpoints to export have this name.
    DuplicateExportName(String),
    /// These names are bound to a handler, but no endpoint of that name is
    /// among those exported.
    UnexportedActivation(Vec<String>),
}

/// What an `ExportError` stands for.
pub enum Failure {
    MalformedTypeExpression(Seq<char>),
    DuplicateActivation(Seq<char>),
    DuplicateExportName(Seq<char>),
    UnexportedActivation(Seq<Seq<char>>),
}

impl View for ExportError {
    type V = Failure;

    open spec fn view(&self) -> Failure {
        match self {
            ExportError::MalformedTypeExpression(expr) => Failure::MalformedTypeExpression(expr@),
            ExportError::DuplicateActivation(name) => Failure::DuplicateActivation(name@),
            ExportError::DuplicateExportName(name) => Failure::DuplicateExportName(name@),
            ExportError::UnexportedActivation(names) => Failure::UnexportedActivation(
                texts(names@),
            ),
        }
    }
}

pub const MALFORMED_OPEN: &'static str = "Malformed type expression: `";

pub const MALFORMED_CLOSE: &'static str = "`.";

pub const ACTIVATION_OPEN: &'static str = "Function name already registered: `";

pub const ACTIVATION_CLOSE: &'static str =
    "`. Each function must have a unique name, since they are all exported from one file in typescript.";

pub const EXPORT_NAME_OPEN: &'static str = "Duplicate function name: ";

pub const EXPORT_NAME_CLOSE: &'static str = ". Each exported function must have a unique name.";

pub const UNEXPORTED_OPEN: &'static str = "Function `";

pub const UNEXPORTED_SEPARATOR: &'static str = "`, `";

pub const UNEXPORTED_CLOSE: &'static str =
    "` is registered but not exported. If you want to allow registered functions to not be exported, use `Api::export_ts_client_choice` with `registered_must_be_exported` set to `false`.";

/// What is said of a failure.
pub open spec fn message_of(failure: Failure) -> Seq<char> {
    match failure {
        Failure::MalformedTypeExpression(expr) => MALFORMED_OPEN@ + expr + MALFORMED_CLOSE@,
        Failure::DuplicateActivation(name) => ACTIVATION_OPEN@ + name + ACTIVATION_CLOSE@,
        Failure::DuplicateExportName(name) => EXPORT_NAME_OPEN@ + name + EXPORT_NAME_CLOSE@,
        Failure::UnexportedActivation(names) => UNEXPORTED_OPEN@ + join(
            names,
            UNEXPORTED_SEPARATOR@,
        ) + UNEXPORTED_CLOSE@,
    }
}

impl ExportError {
    /// What is said of this failure. It names every name or expression that
    /// the failure carries.
    pub fn message(&self) -> (r: String)
        ensures
            r@ == message_of(self@),
    {
        let mut out = String::new();
        match self {
            ExportError::MalformedTypeExpression(expr) => {
                out.append(MALFORMED_OPEN);
                out.append(expr.as_str());
                out.append(MALFORMED_CLOSE);
                proof {
                    assert(Seq::<char>::empty() + MALFORMED_OPEN@ =~= MALFORMED_OPEN@);
                }
            },
            ExportError::DuplicateActivation(name) => {
                out.append(ACTIVATION_OPEN);
                out.append(name.as_str());
                out.append(ACTIVATION_CLOSE);
                proof {
                    assert(Seq::<char>::empty() + ACTIVATION_OPEN@ =~= ACTIVATION_OPEN@);
                }
            },
            ExportError::DuplicateExportName(name) => {
                out.append(EXPORT_NAME_OPEN);
                out.append(name.as_str());
                out.append(EXPORT_NAME_CLOSE);
                proof {
                    assert(Seq::<char>::empty() + EXPORT_NAME_OPEN@ =~= EXPORT_NAME_OPEN@);
                }
            },
            ExportError::UnexportedActivation(names) => {
                out.append(UNEXPORTED_OPEN);
                append_joined(&mut out, names, UNEXPORTED_SEPARATOR);
                out.append(UNEXPORTED_CLOSE);
                proof {
                    assert(Seq::<char>::empty() + UNEXPORTED_OPEN@ =~= UNEXPORTED_OPEN@);
                }
            },
        }
        out
    }
}

} // verus!
