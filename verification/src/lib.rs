//! A parser for line-oriented test reports: a plan, then one result per line.

pub mod classes;
pub mod decimal;
pub mod document;
pub mod error;
pub mod grammar;
pub mod laws;
pub mod parser;

pub use error::ParseError;
pub use parser::{Parser, TestResult};
