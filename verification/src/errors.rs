//! Errors of a block's compilation, as they are reported to its author.

use vstd::prelude::*;
use crate::table::TableIndex;

verus! {

/// What was wrong with a step of a block.
#[derive(Debug, PartialEq, Eq, Hash)]
pub enum ErrorType {
    MissingAttribute(TableIndex),
    /// The index asked for, and the extent there is, each as (row, column).
    IndexOutOfBounds(((u64, u64), (u64, u64))),
    /// The alias is already bound to another column.
    DuplicateAlias(u64),
    /// The unit domain expected, and the one found.
    DomainMismatch(u64, u64),
    /// The ids of the constraints that nothing satisfies.
    UnsatisfiedTransformation(Vec<u64>),
    /// No operator has this name hash.
    MissingFunction(u64),
    IncorrectFunctionArgumentType,
}

impl Clone for ErrorType {
    fn clone(&self) -> (copy: Self)
        ensures
            match (*self, copy) {
                (ErrorType::UnsatisfiedTransformation(a), ErrorType::UnsatisfiedTransformation(b)) => a@ == b@,
                _ => copy == *self,
            },
    {
        match self {
            ErrorType::MissingAttribute(ix) => ErrorType::MissingAttribute(*ix),
            ErrorType::IndexOutOfBounds(((a, b), (c, d))) => ErrorType::IndexOutOfBounds(
                ((*a, *b), (*c, *d)),
            ),
            ErrorType::DuplicateAlias(alias) => ErrorType::DuplicateAlias(*alias),
            ErrorType::DomainMismatch(a, b) => ErrorType::DomainMismatch(*a, *b),
            ErrorType::UnsatisfiedTransformation(ids) => ErrorType::UnsatisfiedTransformation(
                ids.clone(),
            ),
            ErrorType::MissingFunction(name) => ErrorType::MissingFunction(*name),
            ErrorType::IncorrectFunctionArgumentType => ErrorType::IncorrectFunctionArgumentType,
        }
    }
}

/// An error of one step of one block.
#[derive(Clone, Debug, PartialEq, Eq, Hash)]
pub struct Error {
    pub block_id: u64,
    pub step_text: String,
    pub error_type: ErrorType,
}

} // verus!
