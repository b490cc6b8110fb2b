//! Solving a block: running the steps of its plan.
//!
//! A step reads local tables and, without changing them, the tables of the
//! database. What it makes goes into a local table at once; for a global
//! table it is queued as changes that the network applies afterwards.

use vstd::prelude::*;
use crate::block::{
    position_of, Block, BlockModel, BlockState, Functions, MechFunction, Register, Transformation,
};
use crate::database::{Change, ChangeModel, Interner};
use crate::error::{MechError, MechErrorKind};
use crate::hash::hash_str;
use crate::index::{
    cursor_of, linear_values, resolve_subscript, select, table_values, Cursor, ValueIterator,
};
use crate::operations::{
    added_cells, any_result, arguments_wf, binary_infix_grid, computed, copy_result, cursors,
    hcat_result, infix_result, range_result, rewritten, rows_added, set_any_grid, set_values,
    shaped, stated_kinds,
    stats_sum_grid, sum_result, table_add_row, table_copy_grid, table_horizontal_concatenate_grid,
    table_range_grid, table_vertical_concatenate_grid, vcat_result, write_at, write_grid,
    Failure, Grid, GridValues,
};
use crate::operations::{added_cells_of, any_upto, table_set_values, write_cells};
use crate::table::{Table, TableId, TableIndex, TableModel};
use crate::value::{Operator, Value, ValueKind};

verus! {

/// What became of the attempt to find the cells of a slice.
pub enum Resolution {
    /// These are the cells.
    Found(Cursor),
    /// This table does not exist yet.
    Pending(TableId),
    /// The selectors do not fit the table.
    Failed(MechErrorKind),
}

/// How a step ended.
pub enum Verdict {
    /// The plan goes on.
    Continue,
    /// Nothing that the block watches has changed: the plan ends here.
    Abort,
    /// A table does not exist yet: the block waits for it.
    Pending(TableId),
    /// The step failed; the id says what raised the error.
    Failed(u64, Failure),
}

/// A block after a step, and how the step ended.
pub struct Step {
    pub block: BlockModel,
    pub verdict: Verdict,
}

/// The table with this id: a local table of the block, or a table of the
/// database.
pub open spec fn lookup(
    local: Map<u64, TableModel>,
    global: Map<u64, TableModel>,
    id: TableId,
) -> Option<TableModel> {
    match id {
        TableId::Local(i) => if local.dom().contains(i) {
            Some(local[i])
        } else {
            None
        },
        TableId::Global(i) => if global.dom().contains(i) {
            Some(global[i])
        } else {
            None
        },
    }
}

/// The keys that a selector reads its positions from: the cells of the
/// table it names, or none where it names no table. Fails with the id of a
/// table that does not exist.
pub open spec fn keys_of(
    local: Map<u64, TableModel>,
    global: Map<u64, TableModel>,
    selector: TableIndex,
) -> Result<Seq<Value>, TableId> {
    match selector {
        TableIndex::Table(t) => match lookup(local, global, t) {
            Some(table) => Ok(linear_values(table)),
            None => Err(t),
        },
        _ => Ok(Seq::empty()),
    }
}

/// The cells of a slice.
pub open spec fn resolved(
    local: Map<u64, TableModel>,
    global: Map<u64, TableModel>,
    id: TableId,
    row: TableIndex,
    column: TableIndex,
) -> Resolution {
    match lookup(local, global, id) {
        None => Resolution::Pending(id),
        Some(t) => match keys_of(local, global, row) {
            Err(missing) => Resolution::Pending(missing),
            Ok(row_keys) => match keys_of(local, global, column) {
                Err(missing) => Resolution::Pending(missing),
                Ok(column_keys) => match select(t, id, row, column, row_keys, column_keys) {
                    Err(e) => Resolution::Failed(e),
                    Ok(selection) => Resolution::Found(cursor_of(t, id, row, column, selection)),
                },
            },
        },
    }
}

/// The cursors of the first `n` arguments, or what became of the first
/// that could not be resolved.
pub open spec fn resolved_arguments(
    local: Map<u64, TableModel>,
    global: Map<u64, TableModel>,
    arguments: Seq<(u64, TableId, TableIndex, TableIndex)>,
    n: nat,
) -> Result<Seq<(u64, Cursor)>, Resolution>
    decreases n,
{
    if n == 0 {
        Ok(Seq::empty())
    } else {
        match resolved_arguments(local, global, arguments, (n - 1) as nat) {
            Err(r) => Err(r),
            Ok(earlier) => {
                let argument = arguments[n - 1];
                match resolved(local, global, argument.1, argument.2, argument.3) {
                    Resolution::Found(cursor) => Ok(earlier.push((argument.0, cursor))),
                    other => Err(other),
                }
            },
        }
    }
}

/// What an operator that fills its whole output makes of its arguments.
pub open spec fn operator_grid(
    function: MechFunction,
    arguments: Seq<(u64, Cursor)>,
    out: TableModel,
) -> Result<Grid, Failure> {
    match function {
        MechFunction::MathAdd => infix_result(Operator::Add, arguments, out),
        MechFunction::MathSubtract => infix_result(Operator::Subtract, arguments, out),
        MechFunction::MathMultiply => infix_result(Operator::Multiply, arguments, out),
        MechFunction::MathDivide => infix_result(Operator::Divide, arguments, out),
        MechFunction::MathExponent => infix_result(Operator::Power, arguments, out),
        MechFunction::CompareGreaterThan => infix_result(Operator::GreaterThan, arguments, out),
        MechFunction::CompareLessThan => infix_result(Operator::LessThan, arguments, out),
        MechFunction::CompareGreaterThanEqual => infix_result(
            Operator::GreaterThanEqual,
            arguments,
            out,
        ),
        MechFunction::CompareLessThanEqual => infix_result(Operator::LessThanEqual, arguments, out),
        MechFunction::CompareEqual => infix_result(Operator::Equal, arguments, out),
        MechFunction::CompareNotEqual => infix_result(Operator::NotEqual, arguments, out),
        MechFunction::LogicAnd => infix_result(Operator::And, arguments, out),
        MechFunction::LogicOr => infix_result(Operator::Or, arguments, out),
        MechFunction::LogicXor => infix_result(Operator::Xor, arguments, out),
        MechFunction::StatsSum => sum_result(arguments),
        MechFunction::SetAny => any_result(arguments),
        MechFunction::TableRange => range_result(arguments),
        MechFunction::TableHorizontalConcatenate => hcat_result(arguments),
        MechFunction::TableVerticalConcatenate => vcat_result(arguments),
        _ => copy_result(arguments),
    }
}

/// The writes that put the first `n` values of a grid into their cells:
/// one for each cell that has a value, row by row.
pub open spec fn grid_entries(values: Seq<Option<Value>>, cols: nat, n: nat) -> Seq<
    (TableIndex, TableIndex, Value),
>
    decreases n,
{
    if n == 0 {
        Seq::empty()
    } else {
        let earlier = grid_entries(values, cols, (n - 1) as nat);
        match values[n - 1] {
            Some(v) => earlier.push(
                (
                    TableIndex::Index(((n - 1) / (cols as int) + 1) as usize),
                    TableIndex::Index(((n - 1) % (cols as int) + 1) as usize),
                    v,
                ),
            ),
            None => earlier,
        }
    }
}

/// The writes that put the first `n` values into the cells at their
/// positions: one for each position that has a value.
pub open spec fn entries_at(positions: Seq<(usize, usize)>, values: Seq<Option<Value>>, n: nat) -> Seq<
    (TableIndex, TableIndex, Value),
>
    decreases n,
{
    if n == 0 {
        Seq::empty()
    } else {
        let earlier = entries_at(positions, values, (n - 1) as nat);
        match values[n - 1] {
            Some(v) => earlier.push(
                (TableIndex::Index(positions[n - 1].0), TableIndex::Index(positions[n - 1].1), v),
            ),
            None => earlier,
        }
    }
}

/// The id of the table that `table/split` makes of row `i` of its argument,
/// counted from one: the key of the register that names this row of the
/// argument's table.
pub open spec fn split_id(cursor: Cursor, i: int) -> u64 {
    (Register { table_id: cursor.scope, row: TableIndex::Index(i as usize), column: TableIndex::All }).spec_hash()
}

/// The changes that bind the aliases of the first `n` columns of the
/// argument to the columns of the table with this id.
pub open spec fn alias_changes(id: u64, aliases: Seq<Option<u64>>, n: nat) -> Seq<ChangeModel>
    decreases n,
{
    if n == 0 {
        Seq::empty()
    } else {
        let earlier = alias_changes(id, aliases, (n - 1) as nat);
        match aliases[n - 1] {
            Some(alias) => earlier.push(
                ChangeModel::SetColumnAlias { table_id: id, column_ix: n as usize, column_alias: alias },
            ),
            None => earlier,
        }
    }
}

/// The writes that put row `i` of the argument, counted from one, into the
/// one row of a table.
pub open spec fn row_cells(cursor: Cursor, i: int) -> Seq<(TableIndex, TableIndex, Value)> {
    Seq::new(
        cursor.columns as nat,
        |j: int|
            (
                TableIndex::Index(1),
                TableIndex::Index((j + 1) as usize),
                cursor.values[(i - 1) * cursor.columns + j],
            ),
    )
}

/// The changes that make one global table of each of the first `n` rows of
/// the argument: the table is made with one row, its columns get the
/// aliases of the argument's, and the row is written into it.
pub open spec fn split_changes(cursor: Cursor, n: nat) -> Seq<ChangeModel>
    decreases n,
{
    if n == 0 {
        Seq::empty()
    } else {
        let id = split_id(cursor, n as int);
        split_changes(cursor, (n - 1) as nat).push(
            ChangeModel::NewTable { table_id: id, rows: 1, columns: cursor.columns },
        ) + alias_changes(id, cursor.aliases, cursor.columns as nat) + seq![
            ChangeModel::SetCells { table_id: id, values: row_cells(cursor, n as int) },
        ]
    }
}

/// One reference to each table that `table/split` makes, in one column.
pub open spec fn split_grid(cursor: Cursor) -> Grid {
    Grid {
        rows: cursor.rows as nat,
        cols: 1,
        values: Seq::new(
            cursor.rows as nat,
            |k: int| Some(Value::Reference(TableId::Global(split_id(cursor, k + 1)))),
        ),
        kinds: seq![ValueKind::Reference],
    }
}

/// The changes that give the columns of a global table their kinds where a
/// grid is put into it: one for each column whose kind the grid states.
pub open spec fn kind_changes(id: u64, grid: Grid) -> Seq<ChangeModel> {
    Seq::new(
        stated_kinds(grid),
        |c: int|
            ChangeModel::SetColumnKind {
                table_id: id,
                column_ix: (c + 1) as usize,
                kind: grid.kinds[c],
            },
    )
}

impl BlockModel {
    /// The block with more changes at the end of its queue.
    pub open spec fn with_changes(self, changes: Seq<ChangeModel>) -> BlockModel {
        BlockModel { changes: self.changes + changes, ..self }
    }

    /// The block after a grid was put into the table `out`: a local table
    /// is rewritten at once; for a global table the change of shape, the
    /// kinds of the columns, and the writes are queued.
    pub open spec fn with_grid(self, out: TableId, table: TableModel, grid: Grid) -> BlockModel {
        match out {
            TableId::Local(_) => self.with_table(rewritten(table, grid)),
            TableId::Global(id) => self.with_change(
                ChangeModel::Resize {
                    table_id: id,
                    rows: grid.rows as usize,
                    columns: grid.cols as usize,
                },
            ).with_changes(kind_changes(id, grid)).with_change(
                ChangeModel::SetCells {
                    table_id: id,
                    values: grid_entries(grid.values, grid.cols, grid.values.len()),
                },
            ),
        }
    }

    /// The block after values were written into the cells of the table
    /// `out` at the given positions: at once for a local table, as queued
    /// writes for a global one.
    pub open spec fn with_writes(
        self,
        out: TableId,
        table: TableModel,
        target: Cursor,
        values: Seq<Option<Value>>,
    ) -> BlockModel {
        match out {
            TableId::Local(_) => self.with_table(
                write_at(table, target.selection().positions, values, target.positions.len()),
            ),
            TableId::Global(id) => self.with_change(
                ChangeModel::SetCells {
                    table_id: id,
                    values: entries_at(target.positions, values, target.positions.len()),
                },
            ),
        }
    }

    /// The block after the rows of `input` were appended to the table
    /// `out`: at once for a local table, as a queued change of shape and
    /// queued writes for a global one.
    pub open spec fn with_rows(self, out: TableId, table: TableModel, input: Cursor) -> BlockModel {
        match out {
            TableId::Local(_) => self.with_table(rows_added(table, input)),
            TableId::Global(id) => self.with_change(
                ChangeModel::Resize {
                    table_id: id,
                    rows: (table.rows + input.rows) as usize,
                    columns: table.cols() as usize,
                },
            ).with_change(
                ChangeModel::SetCells {
                    table_id: id,
                    values: added_cells(input, table.rows as usize),
                },
            ),
        }
    }

    /// The block after `table/set` wrote its argument into the cells of
    /// `table` that the output selectors name.
    pub open spec fn after_set(
        self,
        global: Map<u64, TableModel>,
        name: u64,
        cursors: Seq<(u64, Cursor)>,
        out: (TableId, TableIndex, TableIndex),
        table: TableModel,
    ) -> Step {
        match resolved(self.tables, global, out.0, out.1, out.2) {
            Resolution::Pending(t) => Step { block: self, verdict: Verdict::Pending(t) },
            Resolution::Failed(e) => Step {
                block: self,
                verdict: Verdict::Failed(name, Failure::of(e)),
            },
            Resolution::Found(target) => if cursors.len() > 1 {
                Step {
                    block: self,
                    verdict: Verdict::Failed(
                        name,
                        Failure::Kind(
                            MechErrorKind::TooManyInputArguments(cursors.len() as usize, 1),
                        ),
                    ),
                }
            } else if cursors.len() < 1 {
                Step {
                    block: self,
                    verdict: Verdict::Failed(name, Failure::Kind(MechErrorKind::Unhandled)),
                }
            } else {
                Step {
                    block: self.with_writes(out.0, table, target, set_values(cursors[0].1, target)),
                    verdict: Verdict::Continue,
                }
            },
        }
    }

    /// The block after `table/add-row` appended its argument to `table`.
    pub open spec fn after_add_row(
        self,
        name: u64,
        cursors: Seq<(u64, Cursor)>,
        out: TableId,
        table: TableModel,
    ) -> Step {
        if cursors.len() > 1 {
            Step {
                block: self,
                verdict: Verdict::Failed(
                    name,
                    Failure::Kind(MechErrorKind::TooManyInputArguments(cursors.len() as usize, 1)),
                ),
            }
        } else if cursors.len() < 1 || table.rows + cursors[0].1.rows > usize::MAX || (table.rows
            + cursors[0].1.rows) * table.cols() > usize::MAX {
            Step {
                block: self,
                verdict: Verdict::Failed(name, Failure::Kind(MechErrorKind::Unhandled)),
            }
        } else {
            Step { block: self.with_rows(out, table, cursors[0].1), verdict: Verdict::Continue }
        }
    }

    /// The block after an operator filled `table` with what it makes of its
    /// arguments.
    pub open spec fn after_grid(
        self,
        name: u64,
        function: MechFunction,
        cursors: Seq<(u64, Cursor)>,
        out: TableId,
        table: TableModel,
    ) -> Step {
        match operator_grid(function, cursors, table) {
            Err(failure) => Step { block: self, verdict: Verdict::Failed(name, failure) },
            Ok(grid) => Step { block: self.with_grid(out, table, grid), verdict: Verdict::Continue },
        }
    }

    /// The block after `table/split` took its argument apart: for each row
    /// of the argument the changes that make a global table of that row are
    /// queued, and the output is filled with one reference to each of these
    /// tables.
    pub open spec fn after_split(
        self,
        name: u64,
        cursors: Seq<(u64, Cursor)>,
        out: TableId,
        table: TableModel,
    ) -> Step {
        if cursors.len() > 1 {
            Step {
                block: self,
                verdict: Verdict::Failed(
                    name,
                    Failure::Kind(MechErrorKind::TooManyInputArguments(cursors.len() as usize, 1)),
                ),
            }
        } else if cursors.len() < 1 {
            Step {
                block: self,
                verdict: Verdict::Failed(name, Failure::Kind(MechErrorKind::Unhandled)),
            }
        } else {
            let cursor = cursors[0].1;
            Step {
                block: (BlockModel {
                    changes: self.changes + split_changes(cursor, cursor.rows as nat),
                    ..self
                }).with_grid(out, table, split_grid(cursor)),
                verdict: Verdict::Continue,
            }
        }
    }

    /// The block after a function was called.
    ///
    /// The function must be known, its arguments and its output table must
    /// exist, and the selectors must fit their tables. `table/set` writes
    /// into the cells of the output that the output selectors name,
    /// `table/add-row` appends to the output, and every other operator
    /// fills the whole output table with what it makes of its arguments.
    pub open spec fn after_function(
        self,
        global: Map<u64, TableModel>,
        functions: Map<u64, MechFunction>,
        name: u64,
        arguments: Seq<(u64, TableId, TableIndex, TableIndex)>,
        out: (TableId, TableIndex, TableIndex),
    ) -> Step {
        if !functions.dom().contains(name) {
            Step {
                block: self,
                verdict: Verdict::Failed(name, Failure::Kind(MechErrorKind::MissingFunction(name))),
            }
        } else {
            match resolved_arguments(self.tables, global, arguments, arguments.len()) {
                Err(Resolution::Pending(t)) => Step { block: self, verdict: Verdict::Pending(t) },
                Err(Resolution::Failed(e)) => Step {
                    block: self,
                    verdict: Verdict::Failed(name, Failure::of(e)),
                },
                Err(Resolution::Found(_)) => Step { block: self, verdict: Verdict::Continue },
                Ok(cursors) => match lookup(self.tables, global, out.0) {
                    None => Step { block: self, verdict: Verdict::Pending(out.0) },
                    Some(table) => match functions[name] {
                        MechFunction::TableSet => self.after_set(global, name, cursors, out, table),
                        MechFunction::TableAddRow => self.after_add_row(name, cursors, out.0, table),
                        MechFunction::TableSplit => self.after_split(name, cursors, out.0, table),
                        function => self.after_grid(name, function, cursors, out.0, table),
                    },
                },
            }
        }
    }
}

/// What became of the attempt to find the cells of a slice.
#[derive(Debug)]
pub enum Resolved {
    Found(ValueIterator),
    Pending(TableId),
    Failed(MechErrorKind),
}

/// How a step ended.
#[derive(Debug)]
pub enum StepResult {
    Continue,
    Abort,
    Pending(TableId),
    Failed(u64, MechErrorKind),
}

impl Resolved {
    /// Whether this is what `resolution` says.
    pub open spec fn is(self, resolution: Resolution) -> bool {
        match (self, resolution) {
            (Resolved::Found(vi), Resolution::Found(cursor)) => vi@ == cursor && vi.wf(),
            (Resolved::Pending(a), Resolution::Pending(b)) => a == b,
            (Resolved::Failed(a), Resolution::Failed(b)) => a == b,
            _ => false,
        }
    }
}

impl StepResult {
    /// Whether this is what `verdict` says.
    pub open spec fn is(self, verdict: Verdict) -> bool {
        match (self, verdict) {
            (StepResult::Continue, Verdict::Continue) => true,
            (StepResult::Abort, Verdict::Abort) => true,
            (StepResult::Pending(a), Verdict::Pending(b)) => a == b,
            (StepResult::Failed(id, e), Verdict::Failed(by, failure)) => id == by && failure.is(e),
            _ => false,
        }
    }
}

proof fn lemma_arguments_stop(
    local: Map<u64, TableModel>,
    global: Map<u64, TableModel>,
    arguments: Seq<(u64, TableId, TableIndex, TableIndex)>,
    failed: nat,
    n: nat,
)
    requires
        failed <= n,
        resolved_arguments(local, global, arguments, failed) is Err,
    ensures
        resolved_arguments(local, global, arguments, n) == resolved_arguments(
            local,
            global,
            arguments,
            failed,
        ),
    decreases n,
{
    if failed < n {
        lemma_arguments_stop(local, global, arguments, failed, (n - 1) as nat);
    }
}

/// Works out what an operator that fills its whole output makes of its
/// arguments.
pub fn compute(function: MechFunction, arguments: &Vec<(u64, ValueIterator)>, out: &Table) -> (r:
    Result<GridValues, MechErrorKind>)
    requires
        out.wf(),
        arguments_wf(arguments@),
    ensures
        computed(operator_grid(function, cursors(arguments@), out@), r),
{
    match function {
        MechFunction::MathAdd => binary_infix_grid(Operator::Add, arguments, out),
        MechFunction::MathSubtract => binary_infix_grid(Operator::Subtract, arguments, out),
        MechFunction::MathMultiply => binary_infix_grid(Operator::Multiply, arguments, out),
        MechFunction::MathDivide => binary_infix_grid(Operator::Divide, arguments, out),
        MechFunction::MathExponent => binary_infix_grid(Operator::Power, arguments, out),
        MechFunction::CompareGreaterThan => binary_infix_grid(Operator::GreaterThan, arguments, out),
        MechFunction::CompareLessThan => binary_infix_grid(Operator::LessThan, arguments, out),
        MechFunction::CompareGreaterThanEqual => binary_infix_grid(
            Operator::GreaterThanEqual,
            arguments,
            out,
        ),
        MechFunction::CompareLessThanEqual => binary_infix_grid(
            Operator::LessThanEqual,
            arguments,
            out,
        ),
        MechFunction::CompareEqual => binary_infix_grid(Operator::Equal, arguments, out),
        MechFunction::CompareNotEqual => binary_infix_grid(Operator::NotEqual, arguments, out),
        MechFunction::LogicAnd => binary_infix_grid(Operator::And, arguments, out),
        MechFunction::LogicOr => binary_infix_grid(Operator::Or, arguments, out),
        MechFunction::LogicXor => binary_infix_grid(Operator::Xor, arguments, out),
        MechFunction::StatsSum => stats_sum_grid(arguments),
        MechFunction::SetAny => set_any_grid(arguments),
        MechFunction::TableRange => table_range_grid(arguments),
        MechFunction::TableHorizontalConcatenate => table_horizontal_concatenate_grid(arguments),
        MechFunction::TableVerticalConcatenate => table_vertical_concatenate_grid(arguments),
        _ => table_copy_grid(arguments),
    }
}

/// The writes that put a grid into its cells.
pub fn entries_of_grid(grid: &GridValues) -> (entries: Vec<(TableIndex, TableIndex, Value)>)
    requires
        grid.values@.len() == grid.rows * grid.cols,
    ensures
        entries@ == grid_entries(grid.values@, grid.cols as nat, grid.values@.len()),
{
    let mut entries: Vec<(TableIndex, TableIndex, Value)> = Vec::new();
    let mut k: usize = 0;
    while k < grid.values.len()
        invariant
            k <= grid.values@.len(),
            grid.values@.len() == grid.rows * grid.cols,
            entries@ == grid_entries(grid.values@, grid.cols as nat, k as nat),
        decreases grid.values@.len() - k,
    {
        proof {
            crate::table::lemma_linear_position(k as int, grid.rows as int, grid.cols as int);
        }
        match grid.values[k] {
            Some(v) => {
                entries.push(
                    (TableIndex::Index(k / grid.cols + 1), TableIndex::Index(k % grid.cols + 1), v),
                );
            },
            None => {},
        }
        k += 1;
    }
    entries
}

/// The writes that put values into the cells at their positions.
pub fn entries_of_writes(positions: &Vec<(usize, usize)>, values: &Vec<Option<Value>>) -> (entries:
    Vec<(TableIndex, TableIndex, Value)>)
    requires
        values@.len() == positions@.len(),
    ensures
        entries@ == entries_at(positions@, values@, positions@.len()),
{
    let mut entries: Vec<(TableIndex, TableIndex, Value)> = Vec::new();
    let mut k: usize = 0;
    while k < positions.len()
        invariant
            k <= positions@.len(),
            values@.len() == positions@.len(),
            entries@ == entries_at(positions@, values@, k as nat),
        decreases positions@.len() - k,
    {
        match values[k] {
            Some(v) => {
                entries.push(
                    (TableIndex::Index(positions[k].0), TableIndex::Index(positions[k].1), v),
                );
            },
            None => {},
        }
        k += 1;
    }
    entries
}

impl Block {
    /// The table with this id: a local table of the block, or a table of
    /// the database.
    pub fn find<'a>(&'a self, store: &'a Interner, id: TableId) -> (t: Option<&'a Table>)
        requires
            self.wf(),
            store.wf(),
        ensures
            match t {
                Some(table) => lookup(self.tables@, store.tables@, id) == Some(table@) && table.wf()
                    && table.id == id.spec_unwrap(),
                None => lookup(self.tables@, store.tables@, id) is None,
            },
    {
        match id {
            TableId::Local(i) => self.tables.get(i),
            TableId::Global(i) => store.tables.get(i),
        }
    }

    /// The keys that a selector reads its positions from.
    fn keys(&self, store: &Interner, selector: TableIndex) -> (r: Result<Vec<Value>, TableId>)
        requires
            self.wf(),
            store.wf(),
        ensures
            match r {
                Ok(keys) => keys_of(self.tables@, store.tables@, selector) == Ok::<
                    Seq<Value>,
                    TableId,
                >(keys@),
                Err(t) => keys_of(self.tables@, store.tables@, selector) == Err::<
                    Seq<Value>,
                    TableId,
                >(t),
            },
    {
        match selector {
            TableIndex::Table(t) => match self.find(store, t) {
                Some(table) => Ok(table_values(table)),
                None => Err(t),
            },
            _ => Ok(Vec::new()),
        }
    }

    /// The cells of a slice, with what they hold.
    pub fn resolve(&self, store: &Interner, id: TableId, row: TableIndex, column: TableIndex) -> (r:
        Resolved)
        requires
            self.wf(),
            store.wf(),
        ensures
            r.is(resolved(self.tables@, store.tables@, id, row, column)),
            r is Found ==> lookup(self.tables@, store.tables@, id) is Some
                && r->Found_0.selection().fits(
                lookup(self.tables@, store.tables@, id)->0.rows,
                lookup(self.tables@, store.tables@, id)->0.cols(),
            ),
    {
        let table: &Table = match self.find(store, id) {
            Some(table) => table,
            None => {
                return Resolved::Pending(id);
            },
        };
        let row_keys: Vec<Value> = match self.keys(store, row) {
            Ok(keys) => keys,
            Err(t) => {
                return Resolved::Pending(t);
            },
        };
        let column_keys: Vec<Value> = match self.keys(store, column) {
            Ok(keys) => keys,
            Err(t) => {
                return Resolved::Pending(t);
            },
        };
        match resolve_subscript(table, id, row, column, &row_keys, &column_keys) {
            Ok(vi) => Resolved::Found(vi),
            Err(e) => Resolved::Failed(e),
        }
    }

    /// The cursors of the arguments.
    fn resolve_arguments(
        &self,
        store: &Interner,
        arguments: &Vec<(u64, TableId, TableIndex, TableIndex)>,
    ) -> (r: Result<Vec<(u64, ValueIterator)>, Resolved>)
        requires
            self.wf(),
            store.wf(),
        ensures
            match r {
                Ok(found) => resolved_arguments(
                    self.tables@,
                    store.tables@,
                    arguments@,
                    arguments@.len(),
                ) == Ok::<Seq<(u64, Cursor)>, Resolution>(cursors(found@)) && arguments_wf(found@),
                Err(other) => {
                    let expected = resolved_arguments(
                        self.tables@,
                        store.tables@,
                        arguments@,
                        arguments@.len(),
                    );
                    expected is Err && other.is(expected->Err_0) && !(other is Found)
                },
            },
    {
        let mut found: Vec<(u64, ValueIterator)> = Vec::new();
        let mut i: usize = 0;
        assert(cursors(found@) =~= Seq::<(u64, Cursor)>::empty());
        while i < arguments.len()
            invariant
                i <= arguments@.len(),
                self.wf(),
                store.wf(),
                arguments_wf(found@),
                resolved_arguments(self.tables@, store.tables@, arguments@, i as nat) == Ok::<
                    Seq<(u64, Cursor)>,
                    Resolution,
                >(cursors(found@)),
            decreases arguments@.len() - i,
        {
            let argument = arguments[i];
            match self.resolve(store, argument.1, argument.2, argument.3) {
                Resolved::Found(vi) => {
                    let ghost earlier = cursors(found@);
                    let ghost cursor = vi@;
                    found.push((argument.0, vi));
                    assert(cursors(found@) =~= earlier.push((argument.0, cursor)));
                },
                other => {
                    proof {
                        lemma_arguments_stop(
                            self.tables@,
                            store.tables@,
                            arguments@,
                            (i + 1) as nat,
                            arguments@.len(),
                        );
                    }
                    return Err(other);
                },
            }
            i += 1;
        }
        Ok(found)
    }

    /// Puts a grid into the table `out`, which exists.
    fn store_grid(&mut self, out: TableId, grid: GridValues, Ghost(table): Ghost<TableModel>)
        requires
            old(self).wf(),
            grid.values@.len() == grid.rows * grid.cols,
            grid.rows * grid.cols <= usize::MAX,
            out is Local ==> old(self).tables@.dom().contains(out.spec_unwrap()) && old(
                self,
            ).tables@[out.spec_unwrap()] == table,
        ensures
            final(self).wf(),
            final(self)@ == old(self)@.with_grid(out, table, grid@),
            final(self).transformations == old(self).transformations,
            final(self).plan == old(self).plan,
    {
        match out {
            TableId::Local(id) => {
                match self.tables.take(id) {
                    Some(mut t) => {
                        write_grid(&mut t, grid.rows, grid.cols, &grid.values, &grid.kinds);
                        proof {
                            lemma_rewritten_id(table, grid@);
                        }
                        self.tables.put(t);
                        assert(self.tables@ =~= old(self).tables@.insert(
                            rewritten(table, grid@).id,
                            rewritten(table, grid@),
                        ));
                    },
                    None => {},
                }
            },
            TableId::Global(id) => {
                let entries = entries_of_grid(&grid);
                self.queue(Change::Resize { table_id: id, rows: grid.rows, columns: grid.cols });
                let ghost resized = self@;
                let stated: usize = if grid.kinds.len() < grid.cols {
                    grid.kinds.len()
                } else {
                    grid.cols
                };
                let mut c: usize = 0;
                while c < stated
                    invariant
                        c <= stated,
                        stated == stated_kinds(grid@),
                        self.wf(),
                        self.transformations == old(self).transformations,
                        self.text@ == old(self).text@,
                        self.name@ == old(self).name@,
                        self.plan == old(self).plan,
                        self@ == resized.with_changes(kind_changes(id, grid@).take(c as int)),
                    decreases stated - c,
                {
                    self.queue(
                        Change::SetColumnKind { table_id: id, column_ix: c + 1, kind: grid.kinds[c] },
                    );
                    assert(kind_changes(id, grid@).take(c + 1) =~= kind_changes(id, grid@).take(
                        c as int,
                    ).push(kind_changes(id, grid@)[c as int]));
                    assert(self@.changes =~= resized.changes + kind_changes(id, grid@).take(c + 1));
                    c += 1;
                }
                assert(kind_changes(id, grid@).take(c as int) =~= kind_changes(id, grid@));
                self.queue(Change::SetCells { table_id: id, values: entries });
            },
        }
    }
}

/// The grid of one cell that writes nothing: a table that is rewritten
/// with it has one row and one column and keeps what its first cell holds.
pub open spec fn one_cell() -> Grid {
    Grid { rows: 1, cols: 1, values: seq![None], kinds: Seq::empty() }
}

/// Brings the table that `out` names to one row and one column: a table of
/// the block at once, a global table by changes that are queued. Where
/// there is no such table, nothing happens and the error says so.
pub fn resize_one(block: &mut Block, store: &Interner, out: &(TableId, TableIndex, TableIndex)) -> (r:
    Result<(), MechError>)
    requires
        old(block).wf(),
        store.wf(),
    ensures
        final(block).wf(),
        final(block).transformations == old(block).transformations,
        final(block).plan == old(block).plan,
        match lookup(old(block).tables@, store.tables@, out.0) {
            Some(table) => r == Ok::<(), MechError>(()) && final(block)@ == old(block)@.with_grid(
                out.0,
                table,
                one_cell(),
            ),
            None => r == Err::<(), MechError>(
                MechError { id: old(block).id, kind: MechErrorKind::MissingTable(out.0) },
            ) && final(block)@ == old(block)@,
        },
{
    let table = match block.find(store, out.0) {
        Some(table) => table,
        None => {
            return Err(MechError { id: block.id, kind: MechErrorKind::MissingTable(out.0) });
        },
    };
    let ghost model = table@;
    let mut values: Vec<Option<Value>> = Vec::new();
    values.push(None);
    assert(values@ =~= seq![None::<Value>]);
    assert(1 * 1 == 1) by (nonlinear_arith);
    block.store_grid(out.0, GridValues { rows: 1, cols: 1, values, kinds: Vec::new() }, Ghost(model));
    Ok(())
}

/// Rewriting a table keeps its id.
pub proof fn lemma_rewritten_id(t: TableModel, grid: Grid)
    requires
        t.wf(),
        grid.values.len() == grid.rows * grid.cols,
    ensures
        rewritten(t, grid).id == t.id,
        rewritten(t, grid).wf(),
{
    crate::operations::lemma_shaped(t, grid);
    crate::operations::lemma_fill(shaped(t, grid), grid.values, grid.rows * grid.cols);
}


impl Block {
    /// `table/set` as a step of the plan.
    fn set_step(
        &mut self,
        store: &Interner,
        name: u64,
        found: &Vec<(u64, ValueIterator)>,
        out: (TableId, TableIndex, TableIndex),
        Ghost(table): Ghost<TableModel>,
    ) -> (r: StepResult)
        requires
            old(self).wf(),
            store.wf(),
            arguments_wf(found@),
            lookup(old(self).tables@, store.tables@, out.0) == Some(table),
        ensures
            final(self).wf(),
            final(self).transformations == old(self).transformations,
            final(self).plan == old(self).plan,
            final(self)@ == old(self)@.after_set(store.tables@, name, cursors(found@), out, table).block,
            r.is(old(self)@.after_set(store.tables@, name, cursors(found@), out, table).verdict),
    {
        let target: ValueIterator = match self.resolve(store, out.0, out.1, out.2) {
            Resolved::Found(target) => target,
            Resolved::Pending(t) => {
                return StepResult::Pending(t);
            },
            Resolved::Failed(e) => {
                return StepResult::Failed(name, e);
            },
        };
        if found.len() > 1 {
            return StepResult::Failed(name, MechErrorKind::TooManyInputArguments(found.len(), 1));
        }
        if found.len() < 1 {
            return StepResult::Failed(name, MechErrorKind::Unhandled);
        }
        let values: Vec<Option<Value>> = table_set_values(&found[0].1, &target);
        match out.0 {
            TableId::Local(id) => {
                match self.tables.take(id) {
                    Some(mut t) => {
                        write_cells(&mut t, &target, &values);
                        self.tables.put(t);
                        assert(self.tables@ =~= old(self).tables@.insert(id, t@));
                    },
                    None => {},
                }
            },
            TableId::Global(id) => {
                let entries = entries_of_writes(&target.positions, &values);
                self.queue(Change::SetCells { table_id: id, values: entries });
            },
        }
        StepResult::Continue
    }

    /// `table/add-row` as a step of the plan.
    fn add_row_step(
        &mut self,
        name: u64,
        found: &Vec<(u64, ValueIterator)>,
        out: TableId,
        rows: usize,
        cols: usize,
        Ghost(table): Ghost<TableModel>,
    ) -> (r: StepResult)
        requires
            old(self).wf(),
            arguments_wf(found@),
            table.wf(),
            rows == table.rows,
            cols == table.cols(),
            out is Local ==> old(self).tables@.dom().contains(out.spec_unwrap()) && old(
                self,
            ).tables@[out.spec_unwrap()] == table,
        ensures
            final(self).wf(),
            final(self).transformations == old(self).transformations,
            final(self).plan == old(self).plan,
            final(self)@ == old(self)@.after_add_row(name, cursors(found@), out, table).block,
            r.is(old(self)@.after_add_row(name, cursors(found@), out, table).verdict),
    {
        if found.len() > 1 {
            return StepResult::Failed(name, MechErrorKind::TooManyInputArguments(found.len(), 1));
        }
        if found.len() < 1 {
            return StepResult::Failed(name, MechErrorKind::Unhandled);
        }
        let taller: usize = match rows.checked_add(found[0].1.rows) {
            Some(sum) => match sum.checked_mul(cols) {
                Some(_) => sum,
                None => {
                    return StepResult::Failed(name, MechErrorKind::Unhandled);
                },
            },
            None => {
                return StepResult::Failed(name, MechErrorKind::Unhandled);
            },
        };
        match out {
            TableId::Local(id) => {
                match self.tables.take(id) {
                    Some(mut t) => {
                        let _ = table_add_row(found, &mut t);
                        self.tables.put(t);
                        assert(self.tables@ =~= old(self).tables@.insert(id, t@));
                    },
                    None => {},
                }
            },
            TableId::Global(id) => {
                let cells = added_cells_of(&found[0].1, rows);
                self.queue(Change::Resize { table_id: id, rows: taller, columns: cols });
                self.queue(Change::SetCells { table_id: id, values: cells });
            },
        }
        StepResult::Continue
    }

    /// Queues the changes that bind the aliases of the argument's columns to
    /// the columns of the table with this id.
    fn queue_aliases(&mut self, id: u64, aliases: &Vec<Option<u64>>)
        requires
            old(self).wf(),
        ensures
            final(self).wf(),
            final(self).transformations == old(self).transformations,
            final(self).plan == old(self).plan,
            final(self)@ == (BlockModel {
                changes: old(self)@.changes + alias_changes(id, aliases@, aliases@.len()),
                ..old(self)@
            }),
    {
        let mut j: usize = 0;
        assert(old(self)@.changes + alias_changes(id, aliases@, 0) =~= old(self)@.changes);
        while j < aliases.len()
            invariant
                j <= aliases@.len(),
                self.wf(),
                self.transformations == old(self).transformations,
                self.text@ == old(self).text@,
                self.name@ == old(self).name@,
                self.plan == old(self).plan,
                self@ == (BlockModel {
                    changes: old(self)@.changes + alias_changes(id, aliases@, j as nat),
                    ..old(self)@
                }),
            decreases aliases@.len() - j,
        {
            match aliases[j] {
                Some(alias) => {
                    self.queue(
                        Change::SetColumnAlias {
                            table_id: id,
                            column_ix: j + 1,
                            column_alias: alias,
                        },
                    );
                    assert(self@.changes =~= old(self)@.changes + alias_changes(
                        id,
                        aliases@,
                        (j + 1) as nat,
                    ));
                },
                None => {},
            }
            j += 1;
        }
    }

    /// `table/split` as a step of the plan.
    fn split_step(
        &mut self,
        name: u64,
        found: &Vec<(u64, ValueIterator)>,
        out: TableId,
        Ghost(table): Ghost<TableModel>,
    ) -> (r: StepResult)
        requires
            old(self).wf(),
            arguments_wf(found@),
            out is Local ==> old(self).tables@.dom().contains(out.spec_unwrap()) && old(
                self,
            ).tables@[out.spec_unwrap()] == table,
        ensures
            final(self).wf(),
            final(self).transformations == old(self).transformations,
            final(self).plan == old(self).plan,
            final(self)@ == old(self)@.after_split(name, cursors(found@), out, table).block,
            r.is(old(self)@.after_split(name, cursors(found@), out, table).verdict),
    {
        if found.len() > 1 {
            return StepResult::Failed(name, MechErrorKind::TooManyInputArguments(found.len(), 1));
        }
        if found.len() < 1 {
            return StepResult::Failed(name, MechErrorKind::Unhandled);
        }
        let vi: &ValueIterator = &found[0].1;
        let ghost cursor = vi@;
        let mut references: Vec<Option<Value>> = Vec::new();
        let mut i: usize = 0;
        assert(old(self)@.changes + split_changes(cursor, 0) =~= old(self)@.changes);
        while i < vi.rows
            invariant
                i <= vi.rows,
                vi.wf(),
                cursor == vi@,
                self.wf(),
                self.transformations == old(self).transformations,
                self.text@ == old(self).text@,
                self.name@ == old(self).name@,
                self.plan == old(self).plan,
                self@ == (BlockModel {
                    changes: old(self)@.changes + split_changes(cursor, i as nat),
                    ..old(self)@
                }),
                references@.len() == i,
                forall|k: int|
                    0 <= k < i ==> #[trigger] references@[k] == Some(
                        Value::Reference(TableId::Global(split_id(cursor, k + 1))),
                    ),
            decreases vi.rows - i,
        {
            let id: u64 = Register::new(vi.scope, TableIndex::Index(i + 1), TableIndex::All).hash();
            let ghost before = self@.changes;
            self.queue(Change::NewTable { table_id: id, rows: 1, columns: vi.columns });
            self.queue_aliases(id, &vi.aliases);
            let mut cells: Vec<(TableIndex, TableIndex, Value)> = Vec::new();
            let mut j: usize = 0;
            while j < vi.columns
                invariant
                    j <= vi.columns,
                    i < vi.rows,
                    vi.wf(),
                    cursor == vi@,
                    cells@.len() == j,
                    forall|x: int| 0 <= x < j ==> #[trigger] cells@[x] == row_cells(cursor, i + 1)[x],
                decreases vi.columns - j,
            {
                let (value, _) = vi.get_unchecked(i + 1, j + 1);
                cells.push((TableIndex::Index(1), TableIndex::Index(j + 1), value));
                j += 1;
            }
            assert(cells@ =~= row_cells(cursor, i + 1));
            self.queue(Change::SetCells { table_id: id, values: cells });
            assert(self@.changes =~= old(self)@.changes + split_changes(cursor, (i + 1) as nat));
            references.push(Some(Value::Reference(TableId::Global(id))));
            i += 1;
        }
        assert(references@ =~= split_grid(cursor).values);
        assert(vi.rows * 1 == vi.rows) by (nonlinear_arith);
        let mut kinds: Vec<ValueKind> = Vec::new();
        kinds.push(ValueKind::Reference);
        assert(kinds@ =~= seq![ValueKind::Reference]);
        self.store_grid(
            out,
            GridValues { rows: vi.rows, cols: 1, values: references, kinds },
            Ghost(table),
        );
        StepResult::Continue
    }

    /// Runs a function step of the plan.
    pub fn function_step(
        &mut self,
        store: &Interner,
        functions: &Functions,
        name: u64,
        arguments: &Vec<(u64, TableId, TableIndex, TableIndex)>,
        out: (TableId, TableIndex, TableIndex),
    ) -> (r: StepResult)
        requires
            old(self).wf(),
            store.wf(),
            functions.wf(),
        ensures
            final(self).wf(),
            final(self).transformations == old(self).transformations,
            final(self).plan == old(self).plan,
            final(self)@ == old(self)@.after_function(
                store.tables@,
                functions@,
                name,
                arguments@,
                out,
            ).block,
            r.is(
                old(self)@.after_function(store.tables@, functions@, name, arguments@, out).verdict,
            ),
    {
        let function: MechFunction = match functions.get(name) {
            Some(f) => f,
            None => {
                return StepResult::Failed(name, MechErrorKind::MissingFunction(name));
            },
        };
        let found: Vec<(u64, ValueIterator)> = match self.resolve_arguments(store, arguments) {
            Ok(found) => found,
            Err(Resolved::Pending(t)) => {
                return StepResult::Pending(t);
            },
            Err(Resolved::Failed(e)) => {
                return StepResult::Failed(name, e);
            },
            Err(Resolved::Found(_)) => {
                return StepResult::Continue;
            },
        };
        let table: &Table = match self.find(store, out.0) {
            Some(table) => table,
            None => {
                return StepResult::Pending(out.0);
            },
        };
        let ghost model = table@;
        match function {
            MechFunction::TableSet => self.set_step(store, name, &found, out, Ghost(model)),
            MechFunction::TableAddRow => {
                let rows: usize = table.rows;
                let cols: usize = table.cols;
                self.add_row_step(name, &found, out.0, rows, cols, Ghost(model))
            },
            MechFunction::TableSplit => self.split_step(name, &found, out.0, Ghost(model)),
            _ => {
                match compute(function, &found, table) {
                    Ok(grid) => {
                        self.store_grid(out.0, grid, Ghost(model));
                        StepResult::Continue
                    },
                    Err(e) => StepResult::Failed(name, e),
                }
            },
        }
    }
}


/// Whether a cell of the table holds `true`.
pub open spec fn any_true(t: TableModel) -> bool {
    any_upto(linear_values(t), linear_values(t).len())
}

/// What a block marks in its scratch table for the cells it watches: for
/// each cell, whether it had changed or is new to the block. Rows of the
/// scratch table beyond the watched cells are left alone.
pub open spec fn watch_grid(watched: Cursor, scratch: TableModel) -> Grid {
    let rows = if watched.values.len() > scratch.rows {
        watched.values.len()
    } else {
        scratch.rows
    };
    Grid {
        rows,
        cols: 1,
        values: Seq::new(
            rows,
            |k: int|
                if k < watched.values.len() {
                    Some(Value::Bool(k >= scratch.rows || watched.changed[k]))
                } else {
                    None
                },
        ),
        kinds: seq![ValueKind::Bool],
    }
}

/// The grid that holds one value.
pub open spec fn single(value: Value) -> Grid {
    Grid { rows: 1, cols: 1, values: seq![Some(value)], kinds: seq![value.kind()] }
}

/// The cursor of the last of the first `n` subscripts of a selection, each
/// taken of the same table; none where there is no subscript. The first
/// subscript that cannot be resolved ends the selection.
pub open spec fn selected(
    local: Map<u64, TableModel>,
    global: Map<u64, TableModel>,
    table_id: TableId,
    indices: Seq<(TableIndex, TableIndex)>,
    n: nat,
) -> Result<Option<Cursor>, Resolution>
    decreases n,
{
    if n == 0 {
        Ok(None)
    } else {
        match selected(local, global, table_id, indices, (n - 1) as nat) {
            Err(r) => Err(r),
            Ok(_) => match resolved(local, global, table_id, indices[n - 1].0, indices[n - 1].1) {
                Resolution::Found(cursor) => Ok(Some(cursor)),
                other => Err(other),
            },
        }
    }
}

impl BlockModel {
    /// The scratch table of the block, or a blank one where it has none.
    pub open spec fn scratch(self) -> TableModel {
        if self.tables.dom().contains(crate::block::whenever_table()) {
            self.tables[crate::block::whenever_table()]
        } else {
            TableModel::blank(crate::block::whenever_table(), 0, 1)
        }
    }

    /// The block with the first `n` registers no longer ready, as far as
    /// they are among its inputs.
    pub open spec fn cleared(self, registers: Seq<Register>, n: nat) -> BlockModel
        decreases n,
    {
        if n == 0 {
            self
        } else {
            let before = self.cleared(registers, (n - 1) as nat);
            match position_of(before.input, registers[n - 1].spec_hash(), 0) {
                Some(p) => BlockModel { ready: before.ready.update(p, false), ..before },
                None => before,
            }
        }
    }

    /// The block after a step that watches registers.
    ///
    /// The cells of the first register are looked at. The block marks in
    /// its scratch table which of them had changed or are new to it. If
    /// nothing is marked, the plan ends; so it does where the step belongs
    /// to a local table that holds no `true`. Otherwise the registers are
    /// no longer ready, and the plan goes on.
    pub open spec fn after_whenever(
        self,
        global: Map<u64, TableModel>,
        table_id: TableId,
        registers: Seq<Register>,
    ) -> Step {
        if registers.len() == 0 {
            Step { block: self, verdict: Verdict::Abort }
        } else {
            match resolved(
                self.tables,
                global,
                registers[0].table_id,
                registers[0].row,
                registers[0].column,
            ) {
                Resolution::Pending(t) => Step { block: self, verdict: Verdict::Pending(t) },
                Resolution::Failed(e) => Step {
                    block: self,
                    verdict: Verdict::Failed(self.id, Failure::of(e)),
                },
                Resolution::Found(watched) => {
                    let marked = rewritten(self.scratch(), watch_grid(watched, self.scratch()));
                    let marking = self.with_table(marked);
                    let fires = any_true(marked) && match table_id {
                        TableId::Global(_) => true,
                        TableId::Local(id) => marking.tables.dom().contains(id) && any_true(
                            marking.tables[id],
                        ),
                    };
                    if fires {
                        Step {
                            block: marking.cleared(registers, registers.len()),
                            verdict: Verdict::Continue,
                        }
                    } else {
                        Step { block: marking, verdict: Verdict::Abort }
                    }
                },
            }
        }
    }

    /// The block after a selection: the cells that the last subscript names
    /// fill the output table.
    pub open spec fn after_select(
        self,
        global: Map<u64, TableModel>,
        table_id: TableId,
        indices: Seq<(TableIndex, TableIndex)>,
        out: TableId,
    ) -> Step {
        match selected(self.tables, global, table_id, indices, indices.len()) {
            Err(Resolution::Pending(t)) => Step { block: self, verdict: Verdict::Pending(t) },
            Err(Resolution::Failed(e)) => Step {
                block: self,
                verdict: Verdict::Failed(self.id, Failure::of(e)),
            },
            Err(Resolution::Found(_)) | Ok(None) => Step { block: self, verdict: Verdict::Continue },
            Ok(Some(cursor)) => match lookup(self.tables, global, out) {
                None => Step { block: self, verdict: Verdict::Pending(out) },
                Some(table) => Step {
                    block: self.with_grid(
                        out,
                        table,
                        Grid {
                            rows: cursor.rows as nat,
                            cols: cursor.columns as nat,
                            values: Seq::new(cursor.values.len(), |k: int| Some(cursor.values[k])),
                            kinds: cursor.kinds,
                        },
                    ),
                    verdict: Verdict::Continue,
                },
            },
        }
    }

    /// The block after a table was made to refer to another: it has one
    /// cell, which holds the reference.
    pub open spec fn after_reference(
        self,
        global: Map<u64, TableModel>,
        table_id: TableId,
        reference: Value,
    ) -> Step {
        match lookup(self.tables, global, table_id) {
            None => Step { block: self, verdict: Verdict::Pending(table_id) },
            Some(table) => Step {
                block: self.with_grid(table_id, table, single(reference)),
                verdict: Verdict::Continue,
            },
        }
    }

    /// The block after one step of its plan.
    #[verifier::opaque]
    pub open spec fn after_step(
        self,
        global: Map<u64, TableModel>,
        functions: Map<u64, MechFunction>,
        tfm: Transformation,
    ) -> Step {
        match tfm {
            Transformation::Function { name, arguments, out } => self.after_function(
                global,
                functions,
                name,
                arguments@,
                out,
            ),
            Transformation::Whenever { table_id, registers, .. } => self.after_whenever(
                global,
                table_id,
                registers@,
            ),
            Transformation::Select { table_id, indices, out, .. } => self.after_select(
                global,
                table_id,
                indices@,
                out,
            ),
            Transformation::TableReference { table_id, reference } => self.after_reference(
                global,
                table_id,
                reference,
            ),
            _ => Step { block: self, verdict: Verdict::Continue },
        }
    }

    /// The block after the first `n` steps of `plan`, each the
    /// transformation at its place. The plan ends with the first step that
    /// does not say to go on. A place at which no transformation stands is
    /// passed over.
    pub open spec fn run_plan(
        self,
        global: Map<u64, TableModel>,
        functions: Map<u64, MechFunction>,
        transformations: Seq<(String, Vec<Transformation>)>,
        plan: Seq<(usize, usize)>,
        n: nat,
    ) -> Step
        decreases n,
    {
        if n == 0 {
            Step { block: self, verdict: Verdict::Continue }
        } else {
            let before = self.run_plan(global, functions, transformations, plan, (n - 1) as nat);
            let place = plan[n - 1];
            if !(before.verdict is Continue) {
                before
            } else if place.0 < transformations.len() && place.1 < transformations[place.0 as int].1@.len() {
                before.block.after_step(
                    global,
                    functions,
                    transformations[place.0 as int].1@[place.1 as int],
                )
            } else {
                before
            }
        }
    }

    /// The block once its plan has run.
    ///
    /// The block counts that it was triggered. Where the plan came to its
    /// end, or ended because nothing had changed, the block is done. Where
    /// a table was missing, the block is unsatisfied and waits for it.
    /// Where a step failed, the error is attached and the block is in
    /// error.
    pub open spec fn solved(
        self,
        global: Map<u64, TableModel>,
        functions: Map<u64, MechFunction>,
        transformations: Seq<(String, Vec<Transformation>)>,
    ) -> BlockModel {
        let triggered = BlockModel {
            triggered: if self.triggered < usize::MAX {
                (self.triggered + 1) as usize
            } else {
                self.triggered
            },
            ..self
        };
        let step = triggered.run_plan(
            global,
            functions,
            transformations,
            self.plan,
            self.plan.len(),
        );
        match step.verdict {
            Verdict::Continue | Verdict::Abort => BlockModel {
                state: BlockState::Done,
                pending: None,
                ..step.block
            },
            Verdict::Pending(t) => BlockModel {
                state: BlockState::Unsatisfied,
                pending: Some(t),
                ..step.block
            },
            Verdict::Failed(id, failure) => BlockModel {
                state: BlockState::Error,
                ..step.block.with_error(id, failure)
            },
        }
    }
}


/// Whether a cell of the table holds `true`.
pub fn table_any(t: &Table) -> (b: bool)
    requires
        t.wf(),
    ensures
        b == any_true(t@),
{
    let values: Vec<Value> = table_values(t);
    let mut found: bool = false;
    let mut k: usize = 0;
    while k < values.len()
        invariant
            k <= values@.len(),
            found == any_upto(values@, k as nat),
        decreases values@.len() - k,
    {
        if values[k] == Value::Bool(true) {
            found = true;
        }
        k += 1;
    }
    found
}

impl Block {
    /// Marks the registers as no longer ready, as far as they are among
    /// the inputs.
    fn clear_ready(&mut self, registers: &Vec<Register>)
        requires
            old(self).wf(),
        ensures
            final(self).wf(),
            final(self).transformations == old(self).transformations,
            final(self).plan == old(self).plan,
            final(self)@ == old(self)@.cleared(registers@, registers@.len()),
    {
        let mut i: usize = 0;
        while i < registers.len()
            invariant
                i <= registers@.len(),
                self.wf(),
                self.transformations == old(self).transformations,
                self.text@ == old(self).text@,
                self.name@ == old(self).name@,
                self.plan == old(self).plan,
                self@ == old(self)@.cleared(registers@, i as nat),
            decreases registers@.len() - i,
        {
            match self.input.position(&registers[i]) {
                Some(p) => {
                    self.ready.set(p, false);
                },
                None => {},
            }
            i += 1;
        }
    }

    /// Runs a step that watches registers.
    pub fn whenever_step(&mut self, store: &Interner, table_id: TableId, registers: &Vec<Register>) -> (r:
        StepResult)
        requires
            old(self).wf(),
            store.wf(),
        ensures
            final(self).wf(),
            final(self).transformations == old(self).transformations,
            final(self).plan == old(self).plan,
            final(self)@ == old(self)@.after_whenever(store.tables@, table_id, registers@).block,
            r.is(old(self)@.after_whenever(store.tables@, table_id, registers@).verdict),
    {
        if registers.len() == 0 {
            return StepResult::Abort;
        }
        let first: Register = registers[0];
        let watched: ValueIterator = match self.resolve(
            store,
            first.table_id,
            first.row,
            first.column,
        ) {
            Resolved::Found(vi) => vi,
            Resolved::Pending(t) => {
                return StepResult::Pending(t);
            },
            Resolved::Failed(e) => {
                return StepResult::Failed(self.id, e);
            },
        };
        let scratch_id: u64 = hash_str("~");
        let ghost scratch = self@.scratch();
        let mut t: Table = match self.tables.take(scratch_id) {
            Some(t) => t,
            None => {
                assert(0 * 1 == 0) by (nonlinear_arith);
                Table::new(scratch_id, 0, 1)
            },
        };
        assert(t@ == scratch);
        let before: usize = t.rows;
        let n: usize = watched.values.len();
        let rows: usize = if n > before {
            n
        } else {
            before
        };
        let mut values: Vec<Option<Value>> = Vec::new();
        let mut k: usize = 0;
        while k < rows
            invariant
                k <= rows,
                n == watched.values@.len(),
                watched.wf(),
                n <= rows,
                values@.len() == k,
                forall|x: int|
                    0 <= x < k ==> #[trigger] values@[x] == (if x < n {
                        Some(Value::Bool(x >= before || watched.changed@[x]))
                    } else {
                        None
                    }),
            decreases rows - k,
        {
            if k < n {
                values.push(Some(Value::Bool(k >= before || watched.changed[k])));
            } else {
                values.push(None);
            }
            k += 1;
        }
        assert(values@ =~= watch_grid(watched@, scratch).values);
        assert(rows * 1 == rows) by (nonlinear_arith);
        let mut kinds: Vec<ValueKind> = Vec::new();
        kinds.push(ValueKind::Bool);
        assert(kinds@ =~= seq![ValueKind::Bool]);
        write_grid(&mut t, rows, 1, &values, &kinds);
        proof {
            lemma_rewritten_id(scratch, watch_grid(watched@, scratch));
        }
        let marked: bool = table_any(&t);
        let ghost model = t@;
        match self.tables.register(t) {
            None => {},
            Some(back) => {
                self.tables.put(back);
            },
        }
        assert(self.tables@ =~= old(self).tables@.insert(scratch_id, model));
        let fires: bool = marked && match table_id {
            TableId::Global(_) => true,
            TableId::Local(id) => match self.tables.get(id) {
                Some(local) => table_any(local),
                None => false,
            },
        };
        if fires {
            self.clear_ready(registers);
            StepResult::Continue
        } else {
            StepResult::Abort
        }
    }

    /// Runs a selection step.
    pub fn select_step(
        &mut self,
        store: &Interner,
        table_id: TableId,
        indices: &Vec<(TableIndex, TableIndex)>,
        out: TableId,
    ) -> (r: StepResult)
        requires
            old(self).wf(),
            store.wf(),
        ensures
            final(self).wf(),
            final(self).transformations == old(self).transformations,
            final(self).plan == old(self).plan,
            final(self)@ == old(self)@.after_select(store.tables@, table_id, indices@, out).block,
            r.is(old(self)@.after_select(store.tables@, table_id, indices@, out).verdict),
    {
        let mut last: Option<ValueIterator> = None;
        let mut i: usize = 0;
        while i < indices.len()
            invariant
                i <= indices@.len(),
                self.wf(),
                store.wf(),
                self == old(self),
                match last {
                    Some(vi) => selected(self.tables@, store.tables@, table_id, indices@, i as nat)
                        == Ok::<Option<Cursor>, Resolution>(Some(vi@)) && vi.wf(),
                    None => selected(self.tables@, store.tables@, table_id, indices@, i as nat)
                        == Ok::<Option<Cursor>, Resolution>(None),
                },
            decreases indices@.len() - i,
        {
            let index = indices[i];
            match self.resolve(store, table_id, index.0, index.1) {
                Resolved::Found(vi) => {
                    last = Some(vi);
                },
                Resolved::Pending(t) => {
                    proof {
                        lemma_selected_stops(
                            self.tables@,
                            store.tables@,
                            table_id,
                            indices@,
                            (i + 1) as nat,
                            indices@.len(),
                        );
                    }
                    return StepResult::Pending(t);
                },
                Resolved::Failed(e) => {
                    proof {
                        lemma_selected_stops(
                            self.tables@,
                            store.tables@,
                            table_id,
                            indices@,
                            (i + 1) as nat,
                            indices@.len(),
                        );
                    }
                    return StepResult::Failed(self.id, e);
                },
            }
            i += 1;
        }
        let vi: ValueIterator = match last {
            Some(vi) => vi,
            None => {
                return StepResult::Continue;
            },
        };
        let table: &Table = match self.find(store, out) {
            Some(table) => table,
            None => {
                return StepResult::Pending(out);
            },
        };
        let ghost model = table@;
        let ghost cursor = vi@;
        let mut arguments: Vec<(u64, ValueIterator)> = Vec::new();
        arguments.push((0, vi));
        assert(cursors(arguments@)[0].1 == cursor);
        match table_copy_grid(&arguments) {
            Ok(grid) => {
                assert(grid@ =~= (Grid {
                    rows: cursor.rows as nat,
                    cols: cursor.columns as nat,
                    values: Seq::new(cursor.values.len(), |k: int| Some(cursor.values[k])),
                    kinds: cursor.kinds,
                }));
                self.store_grid(out, grid, Ghost(model));
                StepResult::Continue
            },
            Err(_) => StepResult::Continue,
        }
    }

    /// Runs a step that makes a table refer to another.
    pub fn reference_step(&mut self, store: &Interner, table_id: TableId, reference: Value) -> (r:
        StepResult)
        requires
            old(self).wf(),
            store.wf(),
        ensures
            final(self).wf(),
            final(self).transformations == old(self).transformations,
            final(self).plan == old(self).plan,
            final(self)@ == old(self)@.after_reference(store.tables@, table_id, reference).block,
            r.is(old(self)@.after_reference(store.tables@, table_id, reference).verdict),
    {
        let table: &Table = match self.find(store, table_id) {
            Some(table) => table,
            None => {
                return StepResult::Pending(table_id);
            },
        };
        let ghost model = table@;
        let mut values: Vec<Option<Value>> = Vec::new();
        values.push(Some(reference));
        assert(values@ =~= seq![Some(reference)]);
        assert(1 * 1 == 1) by (nonlinear_arith);
        let mut kinds: Vec<ValueKind> = Vec::new();
        kinds.push(reference.kind());
        assert(kinds@ =~= seq![reference.kind()]);
        self.store_grid(table_id, GridValues { rows: 1, cols: 1, values, kinds }, Ghost(model));
        StepResult::Continue
    }

    /// Runs one step of the plan.
    pub fn solve_step(&mut self, store: &Interner, functions: &Functions, tfm: &Transformation) -> (r:
        StepResult)
        requires
            old(self).wf(),
            store.wf(),
            functions.wf(),
        ensures
            final(self).wf(),
            final(self).transformations == old(self).transformations,
            final(self).plan == old(self).plan,
            final(self)@ == old(self)@.after_step(store.tables@, functions@, *tfm).block,
            r.is(old(self)@.after_step(store.tables@, functions@, *tfm).verdict),
    {
        reveal(BlockModel::after_step);
        match tfm {
            Transformation::Function { name, arguments, out } => self.function_step(
                store,
                functions,
                *name,
                arguments,
                (out.0, out.1, out.2),
            ),
            Transformation::Whenever { table_id, registers, .. } => self.whenever_step(
                store,
                *table_id,
                registers,
            ),
            Transformation::Select { table_id, indices, out, .. } => self.select_step(
                store,
                *table_id,
                indices,
                *out,
            ),
            Transformation::TableReference { table_id, reference } => self.reference_step(
                store,
                *table_id,
                *reference,
            ),
            _ => StepResult::Continue,
        }
    }

    /// Solves the block: runs the steps of its plan against the tables of
    /// the database, which it reads and does not change.
    pub fn solve(&mut self, store: &Interner, functions: &Functions)
        requires
            old(self).wf(),
            store.wf(),
            functions.wf(),
        ensures
            final(self).wf(),
            final(self).transformations == old(self).transformations,
            final(self)@ == old(self)@.solved(
                store.tables@,
                functions@,
                old(self).transformations@,
            ),
    {
        let mut tfms: Vec<(String, Vec<Transformation>)> = Vec::new();
        std::mem::swap(&mut tfms, &mut self.transformations);
        if self.triggered < usize::MAX {
            self.triggered += 1;
        }
        let ghost start = self@;
        let ghost plan = self.plan@;
        let n: usize = self.plan.len();
        let mut result: StepResult = StepResult::Continue;
        let mut going: bool = true;
        let mut i: usize = 0;
        while i < n && going
            invariant
                i <= n,
                n == plan.len(),
                self.wf(),
                store.wf(),
                functions.wf(),
                self.plan@ == plan,
                tfms == old(self).transformations,
                going == (result is Continue),
                self@ == start.run_plan(store.tables@, functions@, tfms@, plan, i as nat).block,
                result.is(start.run_plan(store.tables@, functions@, tfms@, plan, i as nat).verdict),
                !going ==> start.run_plan(store.tables@, functions@, tfms@, plan, n as nat)
                    == start.run_plan(store.tables@, functions@, tfms@, plan, i as nat),
            decreases n - i + (if going { 1int } else { 0int }),
        {
            let place = self.plan[i];
            if place.0 < tfms.len() && place.1 < tfms[place.0].1.len() {
                result = self.solve_step(store, functions, &tfms[place.0].1[place.1]);
                going = match result {
                    StepResult::Continue => true,
                    _ => false,
                };
            }
            i += 1;
            proof {
                if !going {
                    lemma_plan_stops(start, store.tables@, functions@, tfms@, plan, i as nat, n as nat);
                }
            }
        }
        std::mem::swap(&mut tfms, &mut self.transformations);
        match result {
            StepResult::Continue | StepResult::Abort => {
                self.state = BlockState::Done;
                self.pending = None;
            },
            StepResult::Pending(t) => {
                self.state = BlockState::Unsatisfied;
                self.pending = Some(t);
            },
            StepResult::Failed(id, kind) => {
                let ghost failure = start.run_plan(
                    store.tables@,
                    functions@,
                    old(self).transformations@,
                    plan,
                    n as nat,
                ).verdict->Failed_1;
                let ghost before = self.errors@;
                self.errors.push(MechError { id, kind });
                self.state = BlockState::Error;
                assert(Failure::of(kind) == failure);
                assert(crate::block::failures(self.errors@) =~= crate::block::failures(before).push(
                    (id, failure),
                ));
            },
        }
    }
}

proof fn lemma_selected_stops(
    local: Map<u64, TableModel>,
    global: Map<u64, TableModel>,
    table_id: TableId,
    indices: Seq<(TableIndex, TableIndex)>,
    failed: nat,
    n: nat,
)
    requires
        failed <= n,
        selected(local, global, table_id, indices, failed) is Err,
    ensures
        selected(local, global, table_id, indices, n) == selected(
            local,
            global,
            table_id,
            indices,
            failed,
        ),
    decreases n,
{
    if failed < n {
        lemma_selected_stops(local, global, table_id, indices, failed, (n - 1) as nat);
    }
}

proof fn lemma_plan_stops(
    start: BlockModel,
    global: Map<u64, TableModel>,
    functions: Map<u64, MechFunction>,
    transformations: Seq<(String, Vec<Transformation>)>,
    plan: Seq<(usize, usize)>,
    stopped: nat,
    n: nat,
)
    requires
        stopped <= n,
        !(start.run_plan(global, functions, transformations, plan, stopped).verdict is Continue),
    ensures
        start.run_plan(global, functions, transformations, plan, n) == start.run_plan(
            global,
            functions,
            transformations,
            plan,
            stopped,
        ),
    decreases n,
{
    if stopped < n {
        lemma_plan_stops(start, global, functions, transformations, plan, stopped, (n - 1) as nat);
    }
}

} // verus!
