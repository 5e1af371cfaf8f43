//! Turns a parameterized SQL statement plus an ordered, typed value list
//! into one literal SQL statement, and recovers such statement/value pairs
//! from multi-line application-log text.

pub mod area;
pub mod argument;
pub mod log_parser;
pub mod substitution;
pub mod text;
