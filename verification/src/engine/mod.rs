//! The engines that a scenario run is made of, and their error type.

pub mod control_flow;
pub mod data_sources;
pub mod env;
pub mod extraction;
pub mod goose;
pub mod interpolation;
pub mod macros;
pub mod mock;
pub mod pacing;
pub mod patterns;
pub mod reporting;
pub mod sla;
pub mod utils;
pub mod validation;

use vstd::prelude::*;
use vstd::string::StringExecFns;

verus! {

/// The errors of the engines, each with the context that explains it.
#[derive(Debug, Clone)]
pub enum BztError {
    /// An I/O operation failed; `detail` is the system's description.
    Io { context: String, detail: String },
    /// A configuration could not be read as data.
    Serde { message: String, file_path: Option<String> },
    /// The load-test engine failed.
    Goose(String),
    /// A value broke a rule of the configuration.
    Validation { field: String, reason: String },
    /// The mock server failed.
    Mock { reason: String },
    /// A network operation failed.
    Network { host: String, operation: String, details: String },
    /// A service-level criterion with a stop action was breached; the
    /// measured and allowed values are `f32` bit patterns.
    SlaViolation { metric: String, actual_bits: u32, threshold_bits: u32 },
    /// An environment variable could not be used.
    Environment { var: String, reason: String },
    /// A feature that is not available.
    NotImplemented { feature: String },
    /// An unexpected internal state.
    Internal(String),
}

/// The text of an error: a bracketed category, then its context. For an
/// SLA violation only the category and metric are given here: the rest of
/// its text shows floating-point values.
pub open spec fn error_message(e: BztError) -> Seq<char> {
    match e {
        BztError::Io { context, detail } => "[IO] "@ + context@ + ": "@ + detail@,
        BztError::Serde { message, file_path } => "[SERDE] "@ + message@ + match file_path {
            Some(p) => " in '"@ + p@ + "'"@,
            None => Seq::empty(),
        },
        BztError::Goose(m) => "[GOOSE] "@ + m@,
        BztError::Validation { field, reason } => "[VALIDATION] Field '"@ + field@ + "': "@
            + reason@,
        BztError::Mock { reason } => "[MOCK] "@ + reason@,
        BztError::Network { host, operation, details } => "[NETWORK] "@ + host@ + ": "@
            + operation@ + " failed \u{2014} "@ + details@,
        BztError::SlaViolation { metric, .. } => "[SLA] "@ + metric@,
        BztError::Environment { var, reason } => "[ENV] Variable '"@ + var@ + "': "@ + reason@,
        BztError::NotImplemented { feature } => "[NOT IMPLEMENTED] "@ + feature@
            + " is not yet available"@,
        BztError::Internal(m) => "[INTERNAL] "@ + m@,
    }
}

impl BztError {
    /// The text of the error (what `Display` shows for it), for every error
    /// but an SLA violation, whose text shows floating-point values.
    pub fn message(&self) -> (s: String)
        requires
            !(*self is SlaViolation),
        ensures
            s@ == error_message(*self),
    {
        match self {
            BztError::Io { context, detail } => {
                let mut s = String::from_str("[IO] ");
                s.append(context.as_str());
                s.append(": ");
                s.append(detail.as_str());
                s
            },
            BztError::Serde { message, file_path } => {
                let mut s = String::from_str("[SERDE] ");
                s.append(message.as_str());
                match file_path {
                    Some(p) => {
                        s.append(" in '");
                        s.append(p.as_str());
                        s.append("'");
                    },
                    None => {
                        assert(s@ + Seq::<char>::empty() =~= s@);
                    },
                }
                s
            },
            BztError::Goose(m) => {
                let mut s = String::from_str("[GOOSE] ");
                s.append(m.as_str());
                s
            },
            BztError::Validation { field, reason } => {
                let mut s = String::from_str("[VALIDATION] Field '");
                s.append(field.as_str());
                s.append("': ");
                s.append(reason.as_str());
                s
            },
            BztError::Mock { reason } => {
                let mut s = String::from_str("[MOCK] ");
                s.append(reason.as_str());
                s
            },
            BztError::Network { host, operation, details } => {
                let mut s = String::from_str("[NETWORK] ");
                s.append(host.as_str());
                s.append(": ");
                s.append(operation.as_str());
                s.append(" failed \u{2014} ");
                s.append(details.as_str());
                s
            },
            BztError::SlaViolation { metric, .. } => {
                let mut s = String::from_str("[SLA] ");
                s.append(metric.as_str());
                s
            },
            BztError::Environment { var, reason } => {
                let mut s = String::from_str("[ENV] Variable '");
                s.append(var.as_str());
                s.append("': ");
                s.append(reason.as_str());
                s
            },
            BztError::NotImplemented { feature } => {
                let mut s = String::from_str("[NOT IMPLEMENTED] ");
                s.append(feature.as_str());
                s.append(" is not yet available");
                s
            },
            BztError::Internal(m) => {
                let mut s = String::from_str("[INTERNAL] ");
                s.append(m.as_str());
                s
            },
        }
    }
}

} // verus!
