//! A closed-loop, rate-paced HTTP load generator library.
//!
//! The crate models the three load-bearing parts of such a tool:
//! a small scripting engine (values, variables, functions, a line parser),
//! the request template machinery that substitutes `${name}` placeholders
//! and binds responses back into the script context, and the rate-paced
//! runner with its report aggregation.

pub mod config;
pub mod context;
pub mod error;
pub mod function;
pub mod http;
pub mod parser;
pub mod report;
pub mod request;
pub mod runner;
pub mod script;
pub mod text;
pub mod value;
pub mod variable;
