//! Laws of the runtime: what the operators make of the shapes that programs
//! use most, how changes wake blocks, that a settled network stays settled,
//! and that writes can be undone.

use vstd::prelude::*;
use crate::hash::spec_hash_chars;
use crate::index::Cursor;
use crate::operations::{
    cursors_wf, axis_of, hcat_cell, hcat_result, lemma_fill, lemma_fill_kinds, lemma_hcat_cell,
    lemma_shaped,
    shaped, stated_kinds,
    lemma_total_cols_monotonic, max_rows, range_result, rewritten, rows_fit, sum_result,
    reduced_shape, sum_kind, sum_upto, sum_zero, summands, sums, total_cols, Axis, Grid,
};
use crate::block::{BlockModel, BlockState, MechFunction, Transformation};
use crate::database::{
    apply_pass, apply_transaction, attempts, pass_attempts, set_cells, undo_entries, ChangeClass,
    ChangeModel, LogModel,
};
use crate::table::{lemma_alias_position, lemma_linear_position, lemma_with_kinds, TableIndex};
use crate::runtime::{
    dirties, round, rounds, solving, Register,
};
use crate::table::{lemma_address_bound, lemma_address_position, TableModel};
use crate::value::{lemma_arithmetic_preserves_kind, Operator, Value};

verus! {

/// A table that is rewritten with a grid has the shape of the grid, and
/// each of its cells holds the value that the grid has for it.
pub proof fn lemma_rewritten(t: TableModel, grid: Grid)
    requires
        t.wf(),
        grid.values.len() == grid.rows * grid.cols,
        forall|k: int| 0 <= k < grid.values.len() ==> (#[trigger] grid.values[k]) is Some,
    ensures
        rewritten(t, grid).wf(),
        rewritten(t, grid).rows == grid.rows,
        rewritten(t, grid).cols() == grid.cols,
        forall|r: int, c: int|
            1 <= r <= grid.rows && 1 <= c <= grid.cols ==> #[trigger] rewritten(t, grid).cell(r, c)
                == grid.values[(r - 1) * grid.cols + (c - 1)]->0,
{
    let resized = shaped(t, grid);
    lemma_shaped(t, grid);
    lemma_fill(resized, grid.values, grid.rows * grid.cols);
    assert forall|r: int, c: int| 1 <= r <= grid.rows && 1 <= c <= grid.cols implies #[trigger] rewritten(
        t,
        grid,
    ).cell(r, c) == grid.values[(r - 1) * grid.cols + (c - 1)]->0 by {
        lemma_address_bound(r, c, grid.rows as int, grid.cols as int);
        assert(resized.in_bounds(r, c));
    }
}

/// An operator gives its output the kinds of its result: a table that is
/// rewritten with a grid has, in each column whose kind the grid states,
/// that kind, as long as the kind admits the values that the grid has for
/// the column. A result without rows has its kinds all the same.
pub proof fn lemma_result_has_kinds(t: TableModel, grid: Grid, c: int)
    requires
        t.wf(),
        grid.values.len() == grid.rows * grid.cols,
        0 <= c < grid.cols,
        c < grid.kinds.len(),
        forall|k: int|
            0 <= k < grid.values.len() && k % (grid.cols as int) == c && (
            #[trigger] grid.values[k]) is Some ==> grid.kinds[c].admits(grid.values[k]->0),
    ensures
        rewritten(t, grid).columns[c].kind == grid.kinds[c],
{
    lemma_shaped(t, grid);
    lemma_fill_kinds(shaped(t, grid), grid.values, grid.rows * grid.cols, c);
}

/// The range from a number to itself is one row that holds the number.
pub proof fn lemma_range_of_one(arguments: Seq<(u64, Cursor)>, out: TableModel, n: u64)
    requires
        out.wf(),
        arguments.len() == 2,
        arguments[0].1.wf() && arguments[0].1.is_scalar() && !arguments[0].1.dynamic,
        arguments[1].1.wf() && arguments[1].1.is_scalar() && !arguments[1].1.dynamic,
        arguments[0].1.values[0] == Value::U64(n),
        arguments[1].1.values[0] == Value::U64(n),
    ensures
        range_result(arguments) is Ok,
        rewritten(out, range_result(arguments)->Ok_0).rows == 1,
        rewritten(out, range_result(arguments)->Ok_0).cols() == 1,
        rewritten(out, range_result(arguments)->Ok_0).cell(1, 1) == Value::U64(n),
{
    let grid = range_result(arguments)->Ok_0;
    assert(1 * 1 == 1) by (nonlinear_arith);
    assert(grid.rows == 1 && grid.cols == 1);
    assert(grid.values[0] == Some(Value::U64((n + 0 * 1) as u64)));
    lemma_rewritten(out, grid);
}

/// The sum of a column without cells is the zero of the column's kind, in
/// a column of that kind, whatever the output table held before.
pub proof fn lemma_sum_of_nothing(arguments: Seq<(u64, Cursor)>, out: TableModel)
    requires
        out.wf(),
        arguments.len() == 1,
        arguments[0].0 == spec_hash_chars("column"@),
        arguments[0].1.wf(),
        arguments[0].1.rows == 0,
        arguments[0].1.columns == 1,
    ensures
        sum_result(arguments) is Ok,
        rewritten(out, sum_result(arguments)->Ok_0).rows == 1,
        rewritten(out, sum_result(arguments)->Ok_0).cols() == 1,
        rewritten(out, sum_result(arguments)->Ok_0).cell(1, 1)
            == arguments[0].1.kinds[0].spec_zero(),
        rewritten(out, sum_result(arguments)->Ok_0).col_kind(1) == arguments[0].1.kinds[0],
{
    let vi = arguments[0].1;
    assert(axis_of(arguments[0].0) == Some(Axis::Column));
    assert(1 * 1 == 1) by (nonlinear_arith);
    let cells = summands(Axis::Column, vi, 0);
    assert(cells.len() == 0);
    assert(sum_upto(cells, 0, sum_zero(Axis::Column, vi, 0)) == Ok::<
        Value,
        crate::error::MechErrorKind,
    >(vi.kinds[0].spec_zero()));
    assert(sums(Axis::Column, vi, 0) == Ok::<Seq<Option<Value>>, crate::error::MechErrorKind>(
        Seq::empty(),
    ));
    assert(sums(Axis::Column, vi, 1) is Ok);
    let grid = sum_result(arguments)->Ok_0;
    assert(grid.values[0] == Some(vi.kinds[0].spec_zero()));
    assert(grid.values.len() == 1);
    lemma_rewritten(out, grid);
    assert(grid.kinds =~= seq![vi.kinds[0]]);
    lemma_result_has_kinds(out, grid, 0);
}


/// A sum that starts from something is of the kind of what it starts from.
proof fn lemma_sum_keeps_kind(cells: Seq<Value>, n: nat, zero: Value)
    requires
        !(zero is Empty),
        sum_upto(cells, n, zero) is Ok,
    ensures
        sum_upto(cells, n, zero)->Ok_0.kind() == zero.kind(),
        !(sum_upto(cells, n, zero)->Ok_0 is Empty),
    decreases n,
{
    if n > 0 {
        lemma_sum_keeps_kind(cells, (n - 1) as nat, zero);
        let sum = sum_upto(cells, (n - 1) as nat, zero)->Ok_0;
        let cell = cells[n - 1];
        if !(cell is Empty) && sum.kind().is_integer() {
            lemma_arithmetic_preserves_kind(Operator::Add, sum, cell);
        }
    }
}

/// Each of the first `n` sums is the sum of its summands.
proof fn lemma_sums_at(axis: Axis, vi: Cursor, n: nat, k: int)
    requires
        sums(axis, vi, n) is Ok,
        0 <= k < n,
    ensures
        sums(axis, vi, n)->Ok_0.len() == n,
        sum_upto(summands(axis, vi, k), summands(axis, vi, k).len(), sum_zero(axis, vi, k)) is Ok,
        sums(axis, vi, n)->Ok_0[k] == Some(
            sum_upto(
                summands(axis, vi, k),
                summands(axis, vi, k).len(),
                sum_zero(axis, vi, k),
            )->Ok_0,
        ),
    decreases n,
{
    let earlier = sums(axis, vi, (n - 1) as nat);
    assert(earlier is Ok);
    if n > 1 {
        lemma_sums_at(axis, vi, (n - 1) as nat, if k < n - 1 {
            k
        } else {
            0
        });
    } else {
        assert(sums(axis, vi, 0)->Ok_0.len() == 0);
    }
    let cells = summands(axis, vi, n - 1);
    assert(sums(axis, vi, n)->Ok_0 == earlier->Ok_0.push(
        Some(sum_upto(cells, cells.len(), sum_zero(axis, vi, n - 1))->Ok_0),
    ));
}

/// `stats/sum` gives its output the kind of the sum: the kind of the column
/// that is summed, or the widest integer kind among the columns where rows
/// or a table are summed, whatever the output table held before. This
/// holds of columns that have a kind of their own.
pub proof fn lemma_sum_has_kind(arguments: Seq<(u64, Cursor)>, out: TableModel, c: int)
    requires
        out.wf(),
        arguments.len() == 1,
        arguments[0].1.wf(),
        axis_of(arguments[0].0) is Some,
        sum_result(arguments) is Ok,
        0 <= c < sum_result(arguments)->Ok_0.cols,
        !(sum_kind(axis_of(arguments[0].0)->0, arguments[0].1, c) is Empty),
        !(sum_kind(axis_of(arguments[0].0)->0, arguments[0].1, c) is Any),
    ensures
        rewritten(out, sum_result(arguments)->Ok_0).columns[c].kind == sum_kind(
            axis_of(arguments[0].0)->0,
            arguments[0].1,
            c,
        ),
{
    let vi = arguments[0].1;
    let axis = axis_of(arguments[0].0)->0;
    let grid = sum_result(arguments)->Ok_0;
    let kind = sum_kind(axis, vi, c);
    let shape = reduced_shape(axis, vi);
    let n = (shape.0 * shape.1) as nat;
    assert(grid.cols == shape.1);
    assert(grid.kinds[c] == kind);
    if n > 0 {
        lemma_sums_at(axis, vi, n, 0);
    }
    assert(grid.values.len() == n);
    assert forall|k: int|
        0 <= k < grid.values.len() && k % (grid.cols as int) == c && (
        #[trigger] grid.values[k]) is Some implies grid.kinds[c].admits(grid.values[k]->0) by {
        lemma_sums_at(axis, vi, n, k);
        let cells = summands(axis, vi, k);
        assert(sum_kind(axis, vi, k) == kind) by {
            if axis is Column {
                assert(shape.0 == 1);
                assert(1 * shape.1 == shape.1) by (nonlinear_arith);
                assert(k < shape.1);
                assert(k % (shape.1 as int) == k) by (nonlinear_arith)
                    requires
                        0 <= k < shape.1,
                ;
            }
        }
        lemma_sum_keeps_kind(cells, cells.len(), sum_zero(axis, vi, k));
    }
    assert(grid.rows * grid.cols == n);
    lemma_result_has_kinds(out, grid, c);
}

/// Where tables are set side by side, the cell in row `i` of column `j` of
/// argument `t` stands in row `i` of the result, as many columns further to
/// the right as the arguments before it have. An argument of one row
/// stands in every row.
pub proof fn lemma_side_by_side(
    arguments: Seq<(u64, Cursor)>,
    out: TableModel,
    t: int,
    i: int,
    j: int,
)
    requires
        out.wf(),
        cursors_wf(arguments),
        hcat_result(arguments) is Ok,
        0 <= t < arguments.len(),
        1 <= i <= max_rows(arguments, arguments.len()),
        1 <= j <= arguments[t].1.columns,
    ensures
        rewritten(out, hcat_result(arguments)->Ok_0).rows == max_rows(arguments, arguments.len()),
        rewritten(out, hcat_result(arguments)->Ok_0).cols() == total_cols(
            arguments,
            arguments.len(),
        ),
        rewritten(out, hcat_result(arguments)->Ok_0).cell(i, total_cols(arguments, t as nat) + j)
            == arguments[t].1.value(
            if arguments[t].1.rows == 1 {
                1
            } else {
                i
            },
            j,
        ),
{
    let grid = hcat_result(arguments)->Ok_0;
    let n = arguments.len();
    let before = total_cols(arguments, t as nat) as int;
    lemma_total_cols_monotonic(arguments, (t + 1) as nat, n);
    lemma_rewritten(out, grid);
    let c = before + j;
    assert(1 <= c <= grid.cols);
    lemma_address_position(i, c, grid.cols as int);
    lemma_address_bound(i, c, grid.rows as int, grid.cols as int);
    lemma_hcat_cell(arguments, n, t, i - 1, c - 1);
    let k = (i - 1) * grid.cols + (c - 1);
    assert(grid.values[k] == Some(hcat_cell(arguments, n, k / (grid.cols as int), k % (grid.cols as int))));
}

/// A column set beside itself gives a table of two columns that hold the
/// same, row by row.
pub proof fn lemma_column_beside_itself(arguments: Seq<(u64, Cursor)>, out: TableModel, i: int)
    requires
        out.wf(),
        arguments.len() == 2,
        arguments[0].1 == arguments[1].1,
        arguments[0].1.wf(),
        arguments[0].1.columns == 1,
        arguments[0].1.rows * 2 <= usize::MAX,
        1 <= i <= arguments[0].1.rows,
    ensures
        hcat_result(arguments) is Ok,
        rewritten(out, hcat_result(arguments)->Ok_0).rows == arguments[0].1.rows,
        rewritten(out, hcat_result(arguments)->Ok_0).cols() == 2,
        rewritten(out, hcat_result(arguments)->Ok_0).cell(i, 1) == rewritten(
            out,
            hcat_result(arguments)->Ok_0,
        ).cell(i, 2),
        rewritten(out, hcat_result(arguments)->Ok_0).cell(i, 1) == arguments[0].1.values[i - 1],
{
    let column = arguments[0].1;
    reveal_with_fuel(max_rows, 3);
    reveal_with_fuel(total_cols, 3);
    assert(max_rows(arguments, 2) == column.rows);
    assert(total_cols(arguments, 2) == 2);
    assert(total_cols(arguments, 1) == 1);
    assert(total_cols(arguments, 0) == 0);
    assert(rows_fit(arguments, 2, column.rows as nat));
    assert(hcat_result(arguments) is Ok);
    lemma_side_by_side(arguments, out, 0, i, 1);
    lemma_side_by_side(arguments, out, 1, i, 1);
    if column.rows == 1 {
        assert(i == 1);
    }
    assert((i - 1) * 1 + 0 == i - 1) by (nonlinear_arith);
}

/// One row set beside a table of `k` columns stands in every row of the
/// result: row `i` holds the row and, to its right, row `i` of the table.
pub proof fn lemma_row_beside_matrix(
    arguments: Seq<(u64, Cursor)>,
    out: TableModel,
    i: int,
    j: int,
)
    requires
        out.wf(),
        arguments.len() == 2,
        arguments[0].1.wf(),
        arguments[1].1.wf(),
        arguments[0].1.rows == 1,
        arguments[1].1.rows >= 1,
        arguments[0].1.columns == arguments[1].1.columns,
        arguments[1].1.rows * (2 * arguments[1].1.columns) <= usize::MAX,
        2 * arguments[1].1.columns <= usize::MAX,
        1 <= i <= arguments[1].1.rows,
        1 <= j <= arguments[1].1.columns,
    ensures
        hcat_result(arguments) is Ok,
        rewritten(out, hcat_result(arguments)->Ok_0).rows == arguments[1].1.rows,
        rewritten(out, hcat_result(arguments)->Ok_0).cols() == 2 * arguments[1].1.columns,
        rewritten(out, hcat_result(arguments)->Ok_0).cell(i, j) == arguments[0].1.value(1, j),
        rewritten(out, hcat_result(arguments)->Ok_0).cell(i, arguments[1].1.columns + j)
            == arguments[1].1.value(i, j),
{
    let row = arguments[0].1;
    let matrix = arguments[1].1;
    reveal_with_fuel(max_rows, 3);
    reveal_with_fuel(total_cols, 3);
    assert(max_rows(arguments, 2) == matrix.rows);
    assert(total_cols(arguments, 2) == 2 * matrix.columns);
    assert(total_cols(arguments, 1) == matrix.columns);
    assert(total_cols(arguments, 0) == 0);
    assert(rows_fit(arguments, 2, matrix.rows as nat));
    assert(hcat_result(arguments) is Ok);
    lemma_side_by_side(arguments, out, 0, i, j);
    lemma_side_by_side(arguments, out, 1, i, j);
    if matrix.rows == 1 {
        assert(i == 1);
    }
}


/// A change wakes every block that reads what it reaches: the input is
/// ready afterwards, and a block that was done starts over.
pub proof fn lemma_change_wakes(block: BlockModel, changed: Register, aliases: Seq<Option<u64>>, i: int)
    requires
        0 <= i < block.input.len(),
        block.ready.len() == block.input.len(),
        dirties(changed, aliases, block.input[i]),
    ensures
        block.woken(changed, aliases).ready[i],
        block.woken(changed, aliases).state != BlockState::Done,
        block.woken(changed, aliases).input == block.input,
        forall|j: int|
            0 <= j < block.ready.len() && block.ready[j] ==> #[trigger] block.woken(
                changed,
                aliases,
            ).ready[j],
{
}

/// In the first part of a round, the blocks from `n` on are as they were.
pub proof fn lemma_solving_leaves_later_blocks(
    blocks: Seq<BlockModel>,
    scripts: Seq<Seq<(String, Vec<Transformation>)>>,
    tables: Map<u64, TableModel>,
    functions: Map<u64, MechFunction>,
    last: u64,
    n: nat,
)
    requires
        n <= blocks.len(),
    ensures
        solving(blocks, scripts, tables, functions, last, n).blocks.len() == blocks.len(),
        forall|j: int|
            n <= j < blocks.len() ==> #[trigger] solving(
                blocks,
                scripts,
                tables,
                functions,
                last,
                n,
            ).blocks[j] == blocks[j],
    decreases n,
{
    if n > 0 {
        lemma_solving_leaves_later_blocks(blocks, scripts, tables, functions, last, (n - 1) as nat);
    }
}

/// A round solves each block that is ready and armed exactly once, and no
/// other block: after the first part of the round, a block that would run
/// has been solved once against the tables of the round's beginning, and
/// any other block has only been looked at.
pub proof fn lemma_round_runs_each_ready_block_once(
    blocks: Seq<BlockModel>,
    scripts: Seq<Seq<(String, Vec<Transformation>)>>,
    tables: Map<u64, TableModel>,
    functions: Map<u64, MechFunction>,
    last: u64,
    n: nat,
    i: int,
)
    requires
        n <= blocks.len(),
        0 <= i < n,
    ensures
        solving(blocks, scripts, tables, functions, last, n).blocks[i] == (if blocks[i].eligible(
            tables,
        ) {
            blocks[i].inspected(tables).solved(tables, functions, scripts[i]).flushed()
        } else {
            blocks[i].inspected(tables)
        }),
        solving(blocks, scripts, tables, functions, last, n).executions <= n,
    decreases n,
{
    lemma_solving_leaves_later_blocks(blocks, scripts, tables, functions, last, (n - 1) as nat);
    if n - 1 > i {
        lemma_round_runs_each_ready_block_once(
            blocks,
            scripts,
            tables,
            functions,
            last,
            (n - 1) as nat,
            i,
        );
    } else if n >= 2 {
        lemma_round_runs_each_ready_block_once(
            blocks,
            scripts,
            tables,
            functions,
            last,
            (n - 1) as nat,
            0,
        );
    }
}

/// Where no block ran in the first part of a round, no block would have
/// run: every block has only been looked at, and no change was queued.
proof fn lemma_idle_pass(
    blocks: Seq<BlockModel>,
    scripts: Seq<Seq<(String, Vec<Transformation>)>>,
    tables: Map<u64, TableModel>,
    functions: Map<u64, MechFunction>,
    last: u64,
    n: nat,
)
    requires
        n <= blocks.len(),
        solving(blocks, scripts, tables, functions, last, n).executions == 0,
    ensures
        solving(blocks, scripts, tables, functions, last, n).changes == Seq::<ChangeModel>::empty(),
        solving(blocks, scripts, tables, functions, last, n).last == last,
        solving(blocks, scripts, tables, functions, last, n).blocks.len() == blocks.len(),
        forall|j: int| 0 <= j < n ==> !(#[trigger] blocks[j]).eligible(tables),
        forall|j: int|
            0 <= j < n ==> #[trigger] solving(blocks, scripts, tables, functions, last, n).blocks[j]
                == blocks[j].inspected(tables),
        forall|j: int|
            n <= j < blocks.len() ==> #[trigger] solving(
                blocks,
                scripts,
                tables,
                functions,
                last,
                n,
            ).blocks[j] == blocks[j],
    decreases n,
{
    lemma_solving_leaves_later_blocks(blocks, scripts, tables, functions, last, n);
    if n > 0 {
        lemma_solving_leaves_later_blocks(blocks, scripts, tables, functions, last, (n - 1) as nat);
        lemma_idle_pass(blocks, scripts, tables, functions, last, (n - 1) as nat);
    }
}

/// Where no block would run, no block runs in the first part of a round.
proof fn lemma_pass_of_idle_blocks(
    blocks: Seq<BlockModel>,
    scripts: Seq<Seq<(String, Vec<Transformation>)>>,
    tables: Map<u64, TableModel>,
    functions: Map<u64, MechFunction>,
    last: u64,
    n: nat,
)
    requires
        n <= blocks.len(),
        forall|j: int| 0 <= j < blocks.len() ==> !(#[trigger] blocks[j]).eligible(tables),
    ensures
        solving(blocks, scripts, tables, functions, last, n).executions == 0,
    decreases n,
{
    if n > 0 {
        lemma_solving_leaves_later_blocks(blocks, scripts, tables, functions, last, (n - 1) as nat);
        lemma_pass_of_idle_blocks(blocks, scripts, tables, functions, last, (n - 1) as nat);
    }
}

/// A transaction without changes changes nothing.
proof fn lemma_empty_transaction(tables: Map<u64, TableModel>)
    ensures
        apply_transaction(tables, Seq::empty()).tables == tables,
        apply_transaction(tables, Seq::empty()).result == Ok::<
            Seq<Register>,
            crate::error::MechErrorKind,
        >(Seq::empty()),
        attempts(tables, Seq::empty()) == Seq::<ChangeModel>::empty(),
{
    let none = Seq::<ChangeModel>::empty();
    assert(pass_attempts(tables, none, ChangeClass::Shape, 0) + pass_attempts(
        tables,
        none,
        ChangeClass::Metadata,
        0,
    ) + pass_attempts(tables, none, ChangeClass::Data, 0) =~= none);
    assert(apply_pass(tables, none, ChangeClass::Shape, 0).tables == tables);
    assert(apply_pass(tables, none, ChangeClass::Metadata, 0).tables == tables);
    assert(apply_pass(tables, none, ChangeClass::Data, 0).tables == tables);
    assert(Seq::<Register>::empty() + Seq::<Register>::empty() + Seq::<Register>::empty()
        =~= Seq::<Register>::empty());
}

/// A round in which no block runs leaves the tables as they are, and the
/// blocks such that again none would run.
proof fn lemma_idle_round(
    blocks: Seq<BlockModel>,
    scripts: Seq<Seq<(String, Vec<Transformation>)>>,
    tables: Map<u64, TableModel>,
    functions: Map<u64, MechFunction>,
    last: u64,
)
    requires
        round(blocks, scripts, tables, functions, last).executions == 0,
    ensures
        round(blocks, scripts, tables, functions, last).result is Ok,
        round(blocks, scripts, tables, functions, last).tables == tables,
        round(blocks, scripts, tables, functions, last).last == last,
        round(blocks, scripts, tables, functions, last).attempted == Seq::<ChangeModel>::empty(),
        round(blocks, scripts, tables, functions, last).blocks.len() == blocks.len(),
        forall|j: int|
            0 <= j < blocks.len() ==> #[trigger] round(
                blocks,
                scripts,
                tables,
                functions,
                last,
            ).blocks[j] == blocks[j].inspected(tables),
        forall|j: int|
            0 <= j < blocks.len() ==> !(#[trigger] round(
                blocks,
                scripts,
                tables,
                functions,
                last,
            ).blocks[j]).eligible(tables),
{
    lemma_idle_pass(blocks, scripts, tables, functions, last, blocks.len());
    lemma_empty_transaction(tables);
}

/// Once the network has settled, running it again runs no block, changes
/// no table and tries no change, so that the log of changes stays as it
/// is: the second run settles at once.
pub proof fn lemma_quiescence_is_stable(
    blocks: Seq<BlockModel>,
    scripts: Seq<Seq<(String, Vec<Transformation>)>>,
    tables: Map<u64, TableModel>,
    functions: Map<u64, MechFunction>,
    n: nat,
    m: nat,
)
    requires
        rounds(blocks, scripts, tables, functions, n).status is Quiescent,
        m >= 1,
    ensures
        ({
            let first = rounds(blocks, scripts, tables, functions, n);
            let second = rounds(first.blocks, scripts, first.tables, functions, m);
            &&& second.status is Quiescent
            &&& second.executions == 0
            &&& second.tables == first.tables
            &&& second.attempted == Seq::<ChangeModel>::empty()
            &&& forall|log: LogModel| #[trigger] log.record_all(second.attempted) == log
        }),
    decreases n,
{
    let first = rounds(blocks, scripts, tables, functions, n);
    if n > 0 {
        let before = rounds(blocks, scripts, tables, functions, (n - 1) as nat);
        if !(before.status is Running) {
            lemma_quiescence_is_stable(blocks, scripts, tables, functions, (n - 1) as nat, m);
        } else {
            let settled = round(before.blocks, scripts, before.tables, functions, before.last);
            assert(settled.executions == 0);
            lemma_idle_round(before.blocks, scripts, before.tables, functions, before.last);
            assert(first.blocks == settled.blocks);
            assert(first.tables == before.tables);
            lemma_settled_run(first.blocks, scripts, first.tables, functions, m);
        }
    }
}

/// Where no block would run, a run of the network settles at once.
proof fn lemma_settled_run(
    blocks: Seq<BlockModel>,
    scripts: Seq<Seq<(String, Vec<Transformation>)>>,
    tables: Map<u64, TableModel>,
    functions: Map<u64, MechFunction>,
    m: nat,
)
    requires
        m >= 1,
        forall|j: int| 0 <= j < blocks.len() ==> !(#[trigger] blocks[j]).eligible(tables),
    ensures
        rounds(blocks, scripts, tables, functions, m).status is Quiescent,
        rounds(blocks, scripts, tables, functions, m).executions == 0,
        rounds(blocks, scripts, tables, functions, m).tables == tables,
        rounds(blocks, scripts, tables, functions, m).attempted == Seq::<ChangeModel>::empty(),
    decreases m,
{
    if m == 1 {
        let start = rounds(blocks, scripts, tables, functions, 0);
        assert(start.status is Running);
        lemma_pass_of_idle_blocks(blocks, scripts, tables, functions, 0, blocks.len());
        lemma_idle_round(blocks, scripts, tables, functions, 0);
        assert(Seq::<ChangeModel>::empty() + Seq::<ChangeModel>::empty() =~= Seq::<
            ChangeModel,
        >::empty());
    } else {
        lemma_settled_run(blocks, scripts, tables, functions, (m - 1) as nat);
    }
}


/// Writing keeps a table well formed and of the same shape, as long as the
/// table does not grow.
proof fn lemma_set_static(t: TableModel, row: TableIndex, column: TableIndex, value: Value)
    requires
        t.wf(),
        !t.dynamic,
    ensures
        t.set(row, column, value).wf(),
        !t.set(row, column, value).dynamic,
        t.set(row, column, value).rows == t.rows,
        t.set(row, column, value).cols() == t.cols(),
        forall|r: int, c: int|
            t.in_bounds(r, c) ==> #[trigger] t.set(row, column, value).cell_changed(r, c) || t.set(
                row,
                column,
                value,
            ).cell(r, c) == t.cell(r, c),
        forall|r: int, c: int|
            t.in_bounds(r, c) && t.cell_changed(r, c) ==> #[trigger] t.set(
                row,
                column,
                value,
            ).cell_changed(r, c),
{
    let after = t.set(row, column, value);
    match t.position(row, column) {
        Some((r, c)) => {
            match (row, column) {
                (TableIndex::Index(x), TableIndex::Index(y)) => {
                    if y == 0 {
                        lemma_linear_position(x - 1, t.rows as int, t.cols() as int);
                    }
                },
                (TableIndex::Index(x), TableIndex::Alias(alias)) => {
                    lemma_alias_position(t.aliases, alias, 0);
                },
                _ => {},
            }
            assert(t.in_bounds(r, c));
            assert(t.columns[c - 1].wf());
            assert forall|k: int| 0 <= k < after.columns.len() implies (#[trigger] after.columns[k]).wf()
                && after.columns[k].values.len() == after.rows by {
                assert(t.columns[k].wf());
            }
            assert forall|i: int, j: int| t.in_bounds(i, j) implies (#[trigger] after.cell_changed(
                i,
                j,
            ) || after.cell(i, j) == t.cell(i, j)) && (t.cell_changed(i, j) ==> after.cell_changed(
                i,
                j,
            )) by {
                assert(t.columns[j - 1].wf());
            }
        },
        None => {},
    }
}

/// After any writes that do not make the table grow, a cell that is not
/// marked as changed holds what it held before.
proof fn lemma_set_cells_static(
    before: TableModel,
    values: Seq<(TableIndex, TableIndex, Value)>,
    n: nat,
)
    requires
        before.wf(),
        !before.dynamic,
    ensures
        set_cells(before, values, n).wf(),
        !set_cells(before, values, n).dynamic,
        set_cells(before, values, n).rows == before.rows,
        set_cells(before, values, n).cols() == before.cols(),
        forall|r: int, c: int|
            before.in_bounds(r, c) ==> #[trigger] set_cells(before, values, n).cell_changed(r, c)
                || set_cells(before, values, n).cell(r, c) == before.cell(r, c),
    decreases n,
{
    if n > 0 {
        lemma_set_cells_static(before, values, (n - 1) as nat);
        let earlier = set_cells(before, values, (n - 1) as nat);
        let entry = values[n - 1];
        lemma_set_static(earlier, entry.0, entry.1, entry.2);
        let after = set_cells(before, values, n);
        assert forall|r: int, c: int| before.in_bounds(r, c) implies #[trigger] after.cell_changed(
            r,
            c,
        ) || after.cell(r, c) == before.cell(r, c) by {
            assert(earlier.in_bounds(r, c));
            if earlier.cell_changed(r, c) {
                assert(after.cell_changed(r, c));
            }
        }
    }
}

/// The first `n` writes of two lists that agree in them give the same
/// table.
proof fn lemma_set_cells_prefix(
    t: TableModel,
    a: Seq<(TableIndex, TableIndex, Value)>,
    b: Seq<(TableIndex, TableIndex, Value)>,
    n: nat,
)
    requires
        n <= a.len(),
        n <= b.len(),
        forall|i: int| 0 <= i < n ==> a[i] == b[i],
    ensures
        set_cells(t, a, n) == set_cells(t, b, n),
    decreases n,
{
    if n > 0 {
        lemma_set_cells_prefix(t, a, b, (n - 1) as nat);
    }
}

/// The writes that take a table back put, into each of the first `n`
/// cells that is marked as changed, what it held before, and leave every
/// other cell alone.
proof fn lemma_undo_cells(before: TableModel, after: TableModel, n: nat)
    requires
        before.wf(),
        after.wf(),
        !after.dynamic,
        before.rows == after.rows,
        before.cols() == after.cols(),
        after.rows * after.cols() <= usize::MAX,
        n <= after.rows * after.cols(),
    ensures
        ({
            let entries = undo_entries(before, after, n);
            let undone = set_cells(after, entries, entries.len());
            &&& undone.wf()
            &&& !undone.dynamic
            &&& undone.rows == after.rows
            &&& undone.cols() == after.cols()
            &&& forall|r: int, c: int|
                after.in_bounds(r, c) ==> #[trigger] undone.cell(r, c) == (if (r - 1) * after.cols()
                    + (c - 1) < n && after.cell_changed(r, c) {
                    before.cell(r, c)
                } else {
                    after.cell(r, c)
                })
        }),
    decreases n,
{
    if n > 0 {
        lemma_undo_cells(before, after, (n - 1) as nat);
        let earlier = undo_entries(before, after, (n - 1) as nat);
        let entries = undo_entries(before, after, n);
        let partly = set_cells(after, earlier, earlier.len());
        let undone = set_cells(after, entries, entries.len());
        lemma_linear_position(n - 1, after.rows as int, after.cols() as int);
        let row = after.linear_row(n as int);
        let col = after.linear_col(n as int);
        lemma_address_bound(row, col, after.rows as int, after.cols() as int);
        if after.cell_changed(row, col) {
            let value = before.cell(row, col);
            lemma_set_cells_prefix(after, entries, earlier, earlier.len());
            assert(undone == partly.set(
                TableIndex::Index(row as usize),
                TableIndex::Index(col as usize),
                value,
            ));
            assert(partly.position(TableIndex::Index(row as usize), TableIndex::Index(col as usize))
                == Some((row, col)));
            lemma_set_static(
                partly,
                TableIndex::Index(row as usize),
                TableIndex::Index(col as usize),
                value,
            );
            assert(partly.columns[col - 1].wf());
            assert forall|r: int, c: int| after.in_bounds(r, c) implies #[trigger] undone.cell(r, c)
                == (if (r - 1) * after.cols() + (c - 1) < n && after.cell_changed(r, c) {
                before.cell(r, c)
            } else {
                after.cell(r, c)
            }) by {
                lemma_address_position(r, c, after.cols() as int);
                assert(partly.columns[c - 1].wf());
                if r == row && c == col {
                } else {
                    assert(undone.cell(r, c) == partly.cell(r, c));
                }
            }
        } else {
            assert forall|r: int, c: int| after.in_bounds(r, c) implies #[trigger] undone.cell(r, c)
                == (if (r - 1) * after.cols() + (c - 1) < n && after.cell_changed(r, c) {
                before.cell(r, c)
            } else {
                after.cell(r, c)
            }) by {
                lemma_address_position(r, c, after.cols() as int);
            }
        }
    }
}

/// Writing cells and then writing back, into every cell that is marked as
/// changed, what it held before restores what the table held; resetting
/// the flags then leaves no cell marked. This holds of tables that do not
/// grow on a write.
pub proof fn lemma_undo_restores(before: TableModel, values: Seq<(TableIndex, TableIndex, Value)>)
    requires
        before.wf(),
        !before.dynamic,
        before.rows * before.cols() <= usize::MAX,
    ensures
        ({
            let after = set_cells(before, values, values.len());
            let entries = undo_entries(before, after, after.rows * after.cols());
            let undone = set_cells(after, entries, entries.len()).reset_changed();
            &&& undone.same_data(before)
            &&& undone.unchanged()
        }),
{
    let after = set_cells(before, values, values.len());
    lemma_set_cells_static(before, values, values.len());
    lemma_undo_cells(before, after, after.rows * after.cols());
    let entries = undo_entries(before, after, after.rows * after.cols());
    let written = set_cells(after, entries, entries.len());
    let undone = written.reset_changed();
    assert forall|r: int, c: int| undone.in_bounds(r, c) implies #[trigger] undone.cell(r, c)
        == before.cell(r, c) && !undone.cell_changed(r, c) by {
        lemma_address_bound(r, c, after.rows as int, after.cols() as int);
        assert(written.columns[c - 1].wf());
        assert(after.in_bounds(r, c));
        assert(before.in_bounds(r, c));
        assert(written.in_bounds(r, c));
        assert(undone.columns[c - 1] == written.columns[c - 1].reset_changed());
        assert(undone.cell(r, c) == written.cell(r, c));
        assert(written.cell(r, c) == (if after.cell_changed(r, c) {
            before.cell(r, c)
        } else {
            after.cell(r, c)
        }));
        assert(after.cell_changed(r, c) || after.cell(r, c) == before.cell(r, c));
    }
}

} // verus!
