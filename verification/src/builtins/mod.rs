//! Builtin objects.
pub mod prototypes;
