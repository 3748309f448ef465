//! The prompting interface: how commit fields are collected from a user.
//!
//! Implementations talk to a terminal or another frontend, so they live
//! outside the verified core; the trait itself fixes what the commit
//! workflow asks for.

use vstd::prelude::*;

use crate::config::Prefix;

verus! {

/// Collects the parts of a commit message from the user; an error is
/// reported as a one-line explanation.
pub trait Prompter {
    /// Pick a commit type from the configured prefixes.
    fn prompt_prefix(&self, prefixes: &Vec<Prefix>) -> Result<String, String>;

    /// Pick a scope from the configured scopes, or none.
    fn prompt_scope(&self, scopes: &Vec<String>) -> Result<String, String>;

    /// Ask for the subject line, at most `max_length` characters.
    fn prompt_subject(&self, max_length: usize) -> Result<String, String>;

    /// Ask for the body text; empty to skip.
    fn prompt_body(&self) -> Result<String, String>;

    /// Ask for the footer text; empty to skip.
    fn prompt_footer(&self) -> Result<String, String>;
}

} // verus!
