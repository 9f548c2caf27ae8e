//! A pattern-based lint engine: it walks abstract syntax trees, flags
//! idiomatic anti-patterns with configurable severity, deduplicates and
//! orders the findings, and applies suppression directives and severity
//! overrides to produce the final diagnostic list.

pub mod aggregate;
pub mod ast;
pub mod defaults;
pub mod diagnostics;
pub mod engine;
pub mod matcher;
pub mod resolve;
pub mod rules;
pub mod samples;
pub mod text;
pub mod views;
