//! Errors that the runtime attaches to blocks.

use vstd::prelude::*;
use crate::table::{TableId, TableIndex};
use crate::value::ValueKind;

verus! {

/// The shape of an operand, as the operators tell shapes apart.
#[derive(Clone, Copy, Debug, PartialEq, Eq, Structural, Hash)]
pub enum TableShape {
    /// One row and one column.
    Scalar,
    /// One column of the given number of rows, other than one.
    Column(usize),
    /// Rows and columns, more than one column.
    Matrix(usize, usize),
    /// The rows and columns that a dynamic table has at the moment.
    Dynamic(usize, usize),
    /// The table does not exist yet.
    Pending(TableId),
}

/// One complaint of the parser, with the text ranges it is about.
#[derive(Debug, PartialEq, Eq, Hash)]
pub struct ParserErrorContext {
    pub cause_rng: (usize, usize),
    pub err_message: String,
    pub annotation_rngs: Vec<(usize, usize)>,
}

impl Clone for ParserErrorContext {
    fn clone(&self) -> (copy: Self)
        ensures
            copy.cause_rng == self.cause_rng,
            copy.err_message@ == self.err_message@,
            copy.annotation_rngs@ == self.annotation_rngs@,
    {
        let mut ranges: Vec<(usize, usize)> = Vec::new();
        let mut i: usize = 0;
        while i < self.annotation_rngs.len()
            invariant
                i <= self.annotation_rngs@.len(),
                ranges@ == self.annotation_rngs@.take(i as int),
            decreases self.annotation_rngs@.len() - i,
        {
            let range = self.annotation_rngs[i];
            ranges.push((range.0, range.1));
            assert(ranges@ =~= self.annotation_rngs@.take(i + 1));
            i += 1;
        }
        assert(self.annotation_rngs@.take(i as int) =~= self.annotation_rngs@);
        ParserErrorContext {
            cause_rng: (self.cause_rng.0, self.cause_rng.1),
            err_message: self.err_message.clone(),
            annotation_rngs: ranges,
        }
    }
}

pub type ParserErrorReport = Vec<ParserErrorContext>;

/// What went wrong.
#[derive(Clone, Debug, PartialEq, Eq, Hash)]
pub enum MechErrorKind {
    /// The table with this id does not exist.
    MissingTable(TableId),
    /// The block with this id does not exist.
    MissingBlock(u64),
    /// The table with this id does not exist yet; the block waits for it.
    PendingTable(TableId),
    /// The operands' dimensions, as (rows, columns), do not fit together.
    DimensionMismatch(Vec<(usize, usize)>),
    /// The index asked for, and the number of cells there are.
    LinearSubscriptOutOfBounds(usize, usize),
    /// No operator has this name hash.
    MissingFunction(u64),
    /// Indices start at one.
    ZeroIndex,
    BlockDisabled,
    /// The two kinds do not go together: the one expected or on the left,
    /// then the one found or on the right.
    ColumnKindMismatch(ValueKind, ValueKind),
    /// The unit domains of two quantities differ: left, then right.
    DomainMismatch(u64, u64),
    DivideByZero,
    /// The alias is already borne by another column of the table.
    DuplicateAlias(u64),
    /// The table has no column that the selector names.
    MissingColumn(TableId, TableIndex),
    /// The network did not settle within the bound on rounds.
    Cycle,
    GenericError(String),
    FileNotFound(String),
    Unhandled,
    /// The operator knows no argument of this name hash.
    UnknownFunctionArgument(u64),
    /// No kind has this name hash.
    UnknownColumnKind(u64),
    /// The operator does not take operands of this kind.
    UnhandledFunctionArgumentKind(ValueKind),
    /// The operator does not take an operand of this shape.
    UnhandledTableShape(TableShape),
    /// The number of arguments given, and the number expected.
    TooManyInputArguments(usize, usize),
    /// The hash of the syntax node at fault, and the parser's report.
    ParserError(u64, ParserErrorReport),
    /// No more is known of the error.
    Unspecified,
}

/// An error, tagged with the place in the runtime that raised it.
#[derive(Clone, Debug, PartialEq, Eq, Hash)]
pub struct MechError {
    pub id: u64,
    pub kind: MechErrorKind,
}

} // verus!
