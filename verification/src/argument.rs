//! The decision taken on the command-line arguments: with both a template
//! and a value text the tool substitutes and is done; with exactly one of
//! the two it reports a usage error; with neither it opens the interactive
//! screen.

use vstd::prelude::*;

use crate::substitution::{replace_placeholder, replace_placeholder_spec};

verus! {

/// The two optional command-line inputs: a SQL template and a value text.
pub struct Argument {
    pub sql: Option<String>,
    pub value: Option<String>,
}

/// What the tool does for a given pair of optional inputs.
pub enum ArgOutcome {
    /// Both inputs were given: print this substituted statement and exit.
    Substituted(String),
    /// Exactly one input was given: report a usage error and exit non-zero.
    UsageError,
    /// Neither input was given: fall back to the interactive screen.
    Interactive,
}

impl Argument {
    /// Decide what the tool does with these arguments.
    pub fn resolve(&self) -> (r: ArgOutcome)
        ensures
            (self.sql is Some && self.value is Some) ==> (r matches ArgOutcome::Substituted(out)
                && out@ == replace_placeholder_spec(self.sql->0@, self.value->0@)),
            (self.sql is Some && self.value is None) ==> r is UsageError,
            (self.sql is None && self.value is Some) ==> r is UsageError,
            (self.sql is None && self.value is None) ==> r is Interactive,
    {
        match (&self.sql, &self.value) {
            (Some(sql), Some(value)) => ArgOutcome::Substituted(
                replace_placeholder(sql.as_str(), value.as_str()),
            ),
            (None, None) => ArgOutcome::Interactive,
            _ => ArgOutcome::UsageError,
        }
    }
}

} // verus!
