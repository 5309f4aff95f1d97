//! What can go wrong when a template is looked up, used or entered.

use vstd::prelude::*;

verus! {

/// Why an operation on templates failed.
#[derive(Clone, Copy, Debug, PartialEq, Eq, Structural)]
pub enum TemplateError {
    /// No template is stored under the name asked for.
    NotFound,
    /// What is stored is not a valid template record.
    Corrupt,
    /// An answer does not fit the question that was asked.
    InvalidInput,
}

} // verus!
