//! The operators: what a block can call on tables.
//!
//! An operator reads its arguments through cursors and writes its result
//! into an output table. It first works out the whole result; if that
//! fails, the output table is left as it was.

use vstd::prelude::*;
use crate::error::MechErrorKind;
use crate::index::{Cursor, ValueIterator};
use crate::table::{
    lemma_address_bound, lemma_address_position, lemma_linear_position, lemma_with_kinds, Table,
    TableModel,
};
use crate::database::set_cells;
use crate::hash::{hash_str, spec_hash_chars};
use crate::table::TableIndex;
use crate::value::{Operator, Value, ValueKind};

verus! {

/// Why an operator failed, as mathematics sees it.
pub enum Failure {
    /// With this error.
    Kind(MechErrorKind),
    /// Because dimensions do not fit together: these, as (rows, columns).
    Dimensions(Seq<(usize, usize)>),
}

impl Failure {
    /// The failure that `error` reports.
    pub open spec fn of(error: MechErrorKind) -> Failure {
        match error {
            MechErrorKind::DimensionMismatch(reported) => Failure::Dimensions(reported@),
            _ => Failure::Kind(error),
        }
    }

    /// Whether `error` reports this failure.
    pub open spec fn is(self, error: MechErrorKind) -> bool {
        Failure::of(error) == self
    }
}

/// What an operator makes of its arguments: the shape of the result and,
/// row by row, the value of each cell that is written.
pub struct Grid {
    pub rows: nat,
    pub cols: nat,
    pub values: Seq<Option<Value>>,
    /// The kinds of the first columns of the result, as far as the operator
    /// states them.
    pub kinds: Seq<ValueKind>,
}

/// A grid that an operator has worked out.
#[derive(Debug)]
pub struct GridValues {
    pub rows: usize,
    pub cols: usize,
    pub values: Vec<Option<Value>>,
    pub kinds: Vec<ValueKind>,
}

impl View for GridValues {
    type V = Grid;

    open spec fn view(&self) -> Grid {
        Grid {
            rows: self.rows as nat,
            cols: self.cols as nat,
            values: self.values@,
            kinds: self.kinds@,
        }
    }
}

/// Whether an operator worked out what `expected` says: the grid, with a
/// value or a gap for each of its cells, or a failure for the stated
/// reason.
pub open spec fn computed(expected: Result<Grid, Failure>, returned: Result<GridValues, MechErrorKind>) -> bool {
    match expected {
        Ok(grid) => returned is Ok && returned->Ok_0@ == grid && grid.values.len() == grid.rows
            * grid.cols && grid.rows * grid.cols <= usize::MAX,
        Err(failure) => returned is Err && failure.is(returned->Err_0),
    }
}

/// The table after the first `n` values were written, row by row. A cell
/// for which there is no value is left alone.
pub open spec fn fill(t: TableModel, values: Seq<Option<Value>>, n: nat) -> TableModel
    decreases n,
{
    if n == 0 {
        t
    } else {
        let before = fill(t, values, (n - 1) as nat);
        match values[n - 1] {
            Some(v) => before.write(before.linear_row(n as int), before.linear_col(n as int), v),
            None => before,
        }
    }
}

/// The number of columns whose kind a grid states.
pub open spec fn stated_kinds(grid: Grid) -> nat {
    if grid.kinds.len() < grid.cols {
        grid.kinds.len()
    } else {
        grid.cols
    }
}

/// The table brought to the shape of the grid, its columns of the kinds
/// that the grid states: a cell that such a kind does not admit is emptied,
/// and a result without cells still has its kinds.
pub open spec fn shaped(t: TableModel, grid: Grid) -> TableModel {
    t.resize(grid.rows, grid.cols).with_kinds(grid.kinds, stated_kinds(grid))
}

/// The table brought to the shape of the grid, with the values of the grid
/// written into it.
pub open spec fn rewritten(t: TableModel, grid: Grid) -> TableModel {
    fill(shaped(t, grid), grid.values, grid.rows * grid.cols)
}

/// A table that is brought to the shape of a grid is well formed, has that
/// shape, keeps its id and its aliases as far as the columns go, and has in
/// each column the kind that the grid states for it.
pub proof fn lemma_shaped(t: TableModel, grid: Grid)
    requires
        t.wf(),
    ensures
        shaped(t, grid).wf(),
        shaped(t, grid).id == t.id,
        shaped(t, grid).dynamic == t.dynamic,
        shaped(t, grid).rows == grid.rows,
        shaped(t, grid).cols() == grid.cols,
        shaped(t, grid).aliases == t.resize(grid.rows, grid.cols).aliases,
        forall|c: int|
            0 <= c < stated_kinds(grid) ==> (#[trigger] shaped(t, grid).columns[c]).kind
                == grid.kinds[c],
{
    let resized = t.resize(grid.rows, grid.cols);
    assert forall|c: int| 0 <= c < resized.columns.len() implies (#[trigger] resized.columns[c]).wf()
        && resized.columns[c].values.len() == resized.rows by {
        if c < t.columns.len() {
            assert(t.columns[c].wf());
        }
    }
    assert forall|i: int, j: int|
        0 <= i < resized.aliases.len() && 0 <= j < resized.aliases.len() && i != j
            && resized.aliases[i] is Some implies resized.aliases[i] != resized.aliases[j] by {
        if j < t.aliases.len() {
            assert(t.aliases[i] != t.aliases[j]);
        }
    }
    lemma_with_kinds(resized, grid.kinds, stated_kinds(grid));
}

/// The value that the cell at linear position `k`, counted from zero, holds
/// once the table was brought to the given shape: what it held before, and
/// nothing where the table had no such cell.
pub open spec fn held(t: TableModel, rows: nat, cols: nat, k: int) -> Value {
    let r = k / (cols as int) + 1;
    let c = k % (cols as int) + 1;
    if t.in_bounds(r, c) {
        t.cell(r, c)
    } else {
        Value::Empty
    }
}

/// Filling a table keeps its shape, and every cell that got a value holds
/// it; the others hold what they held.
pub proof fn lemma_fill(t: TableModel, values: Seq<Option<Value>>, n: nat)
    requires
        t.wf(),
        n <= t.rows * t.cols(),
    ensures
        fill(t, values, n).wf(),
        fill(t, values, n).id == t.id,
        fill(t, values, n).dynamic == t.dynamic,
        fill(t, values, n).rows == t.rows,
        fill(t, values, n).cols() == t.cols(),
        fill(t, values, n).aliases == t.aliases,
        forall|r: int, c: int|
            t.in_bounds(r, c) ==> #[trigger] fill(t, values, n).cell(r, c) == (if (r - 1)
                * t.cols() + (c - 1) < n && values[(r - 1) * t.cols() + (c - 1)] is Some {
                values[(r - 1) * t.cols() + (c - 1)]->0
            } else {
                t.cell(r, c)
            }),
    decreases n,
{
    if n > 0 {
        lemma_fill(t, values, (n - 1) as nat);
        let before = fill(t, values, (n - 1) as nat);
        let after = fill(t, values, n);
        lemma_linear_position(n - 1, t.rows as int, t.cols() as int);
        let row = before.linear_row(n as int);
        let col = before.linear_col(n as int);
        assert(before.in_bounds(row, col));
        assert(before.columns[col - 1].wf());
        assert forall|c: int| 0 <= c < after.columns.len() implies (#[trigger] after.columns[c]).wf()
            && after.columns[c].values.len() == after.rows by {
            assert(before.columns[c].wf());
        }
        assert forall|r: int, c: int| t.in_bounds(r, c) implies #[trigger] after.cell(r, c) == (if (r
            - 1) * t.cols() + (c - 1) < n && values[(r - 1) * t.cols() + (c - 1)] is Some {
            values[(r - 1) * t.cols() + (c - 1)]->0
        } else {
            t.cell(r, c)
        }) by {
            lemma_address_position(r, c, t.cols() as int);
            lemma_address_bound(r, c, t.rows as int, t.cols() as int);
            let k = (r - 1) * t.cols() + (c - 1);
            if r == row && c == col {
                assert(k == n - 1);
            } else {
                assert(k != n - 1);
                assert(before.cell(r, c) == (if k < n - 1 && values[k] is Some {
                    values[k]->0
                } else {
                    t.cell(r, c)
                }));
            }
        }
    }
}

/// Filling a table keeps the kind of a column into which only values that
/// the kind admits are written.
pub proof fn lemma_fill_kinds(t: TableModel, values: Seq<Option<Value>>, n: nat, c: int)
    requires
        t.wf(),
        n <= t.rows * t.cols(),
        0 <= c < t.cols(),
        forall|k: int|
            0 <= k < n && k % (t.cols() as int) == c && (#[trigger] values[k]) is Some
                ==> t.columns[c].kind.admits(values[k]->0),
    ensures
        fill(t, values, n).columns[c].kind == t.columns[c].kind,
    decreases n,
{
    if n > 0 {
        lemma_fill_kinds(t, values, (n - 1) as nat, c);
        lemma_fill(t, values, (n - 1) as nat);
        let before = fill(t, values, (n - 1) as nat);
        lemma_linear_position(n - 1, t.rows as int, t.cols() as int);
        let col = before.linear_col(n as int);
        assert(before.in_bounds(before.linear_row(n as int), col));
        if col - 1 == c && values[n - 1] is Some {
            assert((n - 1) % (t.cols() as int) == c);
            assert(t.columns[c].kind.admits(values[n - 1]->0));
        }
    }
}

/// Brings a table to the shape of a grid and writes the values of the grid
/// into it, row by row.
pub fn write_grid(
    out: &mut Table,
    rows: usize,
    cols: usize,
    values: &Vec<Option<Value>>,
    kinds: &Vec<ValueKind>,
)
    requires
        old(out).wf(),
        rows * cols <= usize::MAX,
        values@.len() == rows * cols,
    ensures
        final(out).wf(),
        final(out)@ == rewritten(
            old(out)@,
            Grid { rows: rows as nat, cols: cols as nat, values: values@, kinds: kinds@ },
        ),
{
    let ghost grid = Grid { rows: rows as nat, cols: cols as nat, values: values@, kinds: kinds@ };
    out.resize(rows, cols);
    let ghost bare = out@;
    let stated: usize = if kinds.len() < cols {
        kinds.len()
    } else {
        cols
    };
    let mut c: usize = 0;
    while c < stated
        invariant
            c <= stated,
            stated <= cols,
            stated <= kinds@.len(),
            bare.wf(),
            bare.cols() == cols,
            bare.rows == rows,
            out.wf(),
            out.cols == cols,
            out.rows == rows,
            out@ == bare.with_kinds(kinds@, c as nat),
        decreases stated - c,
    {
        proof {
            lemma_with_kinds(bare, kinds@, c as nat);
        }
        let _ = out.set_col_kind(c + 1, kinds[c]);
        c += 1;
    }
    proof {
        lemma_with_kinds(bare, kinds@, stated as nat);
    }
    let n: usize = rows * cols;
    let ghost resized = out@;
    assert(resized == shaped(old(out)@, grid));
    let mut k: usize = 0;
    while k < n
        invariant
            k <= n,
            n == rows * cols,
            n == values@.len(),
            out.wf(),
            out.rows == rows,
            out.cols == cols,
            resized.wf(),
            resized.rows == rows,
            resized.cols() == cols,
            out@ == fill(resized, values@, k as nat),
        decreases n - k,
    {
        match values[k] {
            Some(v) => {
                out.set_unchecked_linear(k + 1, v);
                proof {
                    lemma_linear_position(k as int, rows as int, cols as int);
                }
            },
            None => {},
        }
        k += 1;
    }
}

/// Whether the one operand of an element-wise operator stands for every
/// cell of the result: it is a scalar, and the other operand is not of the
/// same shape.
pub open spec fn broadcasts(operand: Cursor, other: Cursor) -> bool {
    operand.is_scalar() && !(operand.rows == other.rows && operand.columns == other.columns)
}

/// The shape of what an element-wise operator gives: that of its operands
/// where they agree, that of the other operand where one is a scalar, and
/// none otherwise.
pub open spec fn infix_shape(lhs: Cursor, rhs: Cursor) -> Option<(usize, usize)> {
    if lhs.rows == rhs.rows && lhs.columns == rhs.columns {
        Some((lhs.rows, lhs.columns))
    } else if lhs.is_scalar() {
        Some((rhs.rows, rhs.columns))
    } else if rhs.is_scalar() {
        Some((lhs.rows, lhs.columns))
    } else {
        None
    }
}

/// The kinds of the columns of what an element-wise operator gives: for
/// each column, what the operator yields on the kind of that column of the
/// operand that gives the result its shape.
pub open spec fn infix_kinds(op: Operator, lhs: Cursor, rhs: Cursor) -> Seq<ValueKind> {
    let operand = if lhs.rows == rhs.rows && lhs.columns == rhs.columns {
        lhs
    } else if lhs.is_scalar() {
        rhs
    } else {
        lhs
    };
    Seq::new(operand.columns as nat, |j: int| op.spec_result_kind(operand.kinds[j]))
}

/// What an element-wise operator writes into the cell at linear position
/// `k`, counted from zero.
///
/// The operator is applied to the two cells that meet there, a scalar
/// standing for every cell. Where one of the two had not changed and the
/// output cell already holds something of the kind of the result, nothing
/// is written.
pub open spec fn infix_cell(
    op: Operator,
    lhs: Cursor,
    rhs: Cursor,
    out: TableModel,
    k: int,
) -> Result<Option<Value>, MechErrorKind> {
    let shape = infix_shape(lhs, rhs)->0;
    let i = if broadcasts(lhs, rhs) {
        0
    } else {
        k
    };
    let j = if broadcasts(rhs, lhs) {
        0
    } else {
        k
    };
    let holds = held(out, shape.0 as nat, shape.1 as nat, k);
    let kind = infix_kinds(op, lhs, rhs)[k % (shape.1 as int)];
    if (lhs.changed[i] && rhs.changed[j]) || holds is Empty || !kind.admits(holds) {
        match Value::spec_apply(op, lhs.values[i], rhs.values[j]) {
            Ok(v) => Ok(Some(v)),
            Err(e) => Err(e),
        }
    } else {
        Ok(None)
    }
}

/// What an element-wise operator writes into the first `n` cells, or the
/// error of the first cell that fails.
pub open spec fn infix_values(
    op: Operator,
    lhs: Cursor,
    rhs: Cursor,
    out: TableModel,
    n: nat,
) -> Result<Seq<Option<Value>>, MechErrorKind>
    decreases n,
{
    if n == 0 {
        Ok(Seq::empty())
    } else {
        match infix_values(op, lhs, rhs, out, (n - 1) as nat) {
            Err(e) => Err(e),
            Ok(earlier) => match infix_cell(op, lhs, rhs, out, n - 1) {
                Err(e) => Err(e),
                Ok(v) => Ok(earlier.push(v)),
            },
        }
    }
}

/// What an element-wise operator makes of its arguments.
///
/// It takes two arguments. Their shapes must agree, or one must be a scalar;
/// the scalar then stands for every cell.
pub open spec fn infix_result(
    op: Operator,
    arguments: Seq<(u64, Cursor)>,
    out: TableModel,
) -> Result<Grid, Failure> {
    if arguments.len() > 2 {
        Err(Failure::Kind(MechErrorKind::TooManyInputArguments(arguments.len() as usize, 2)))
    } else if arguments.len() < 2 {
        Err(Failure::Kind(MechErrorKind::Unhandled))
    } else {
        let lhs = arguments[0].1;
        let rhs = arguments[1].1;
        match infix_shape(lhs, rhs) {
            None => Err(
                Failure::Dimensions(seq![(lhs.rows, lhs.columns), (rhs.rows, rhs.columns)]),
            ),
            Some((rows, cols)) => match infix_values(op, lhs, rhs, out, (rows * cols) as nat) {
                Err(e) => Err(Failure::Kind(e)),
                Ok(values) => Ok(
                    Grid {
                        rows: rows as nat,
                        cols: cols as nat,
                        values,
                        kinds: infix_kinds(op, lhs, rhs),
                    },
                ),
            },
        }
    }
}

/// Whether an operator did to the output table what `expected` says: it
/// wrote the grid and returned `Ok`, or it failed for the stated reason and
/// left the table as it was.
pub open spec fn carried_out(
    expected: Result<Grid, Failure>,
    before: TableModel,
    after: TableModel,
    returned: Result<(), MechErrorKind>,
) -> bool {
    match expected {
        Ok(grid) => returned is Ok && after == rewritten(before, grid),
        Err(failure) => returned is Err && failure.is(returned->Err_0) && after == before,
    }
}

/// Whether every argument is a well-formed cursor.
pub open spec fn arguments_wf(arguments: Seq<(u64, ValueIterator)>) -> bool {
    forall|i: int| 0 <= i < arguments.len() ==> (#[trigger] arguments[i]).1.wf()
}

/// Whether every argument is well formed.
pub open spec fn cursors_wf(arguments: Seq<(u64, Cursor)>) -> bool {
    forall|i: int| 0 <= i < arguments.len() ==> (#[trigger] arguments[i]).1.wf()
}

/// The arguments as mathematics sees them: each name with what its cursor
/// holds.
pub open spec fn cursors(arguments: Seq<(u64, ValueIterator)>) -> Seq<(u64, Cursor)> {
    Seq::new(arguments.len(), |i: int| (arguments[i].0, arguments[i].1@))
}

proof fn lemma_infix_stops(
    op: Operator,
    lhs: Cursor,
    rhs: Cursor,
    out: TableModel,
    failed: nat,
    n: nat,
)
    requires
        failed <= n,
        infix_values(op, lhs, rhs, out, failed) is Err,
    ensures
        infix_values(op, lhs, rhs, out, n) == infix_values(op, lhs, rhs, out, failed),
    decreases n,
{
    if failed < n {
        lemma_infix_stops(op, lhs, rhs, out, failed, (n - 1) as nat);
    }
}

/// The two dimensions of a mismatch, as a list.
fn dimensions_of(a: (usize, usize), b: (usize, usize)) -> (dims: Vec<(usize, usize)>)
    ensures
        dims@ == seq![a, b],
{
    let mut dims: Vec<(usize, usize)> = Vec::new();
    dims.push(a);
    dims.push(b);
    assert(dims@ =~= seq![a, b]);
    dims
}

/// The value that the output table holds, or would hold once resized, at
/// linear position `k` of a grid with `cols` columns.
fn held_at(out: &Table, cols: usize, k: usize) -> (v: Value)
    requires
        out.wf(),
        cols > 0,
    ensures
        forall|rows: nat| v == #[trigger] held(out@, rows, cols as nat, k as int),
{
    let r: usize = k / cols;
    let c: usize = k % cols;
    if r < out.rows && c < out.cols {
        out.get_unchecked(r + 1, c + 1).0
    } else {
        Value::Empty
    }
}

/// The kinds of the columns of a cursor.
fn kinds_of(vi: &ValueIterator) -> (kinds: Vec<ValueKind>)
    ensures
        kinds@ == vi@.kinds,
{
    let mut kinds: Vec<ValueKind> = Vec::new();
    let mut j: usize = 0;
    while j < vi.kinds.len()
        invariant
            j <= vi.kinds@.len(),
            kinds@ == vi.kinds@.take(j as int),
        decreases vi.kinds@.len() - j,
    {
        kinds.push(vi.kinds[j]);
        assert(vi.kinds@.take(j + 1) =~= vi.kinds@.take(j as int).push(vi.kinds@[j as int]));
        j += 1;
    }
    assert(vi.kinds@.take(j as int) =~= vi.kinds@);
    kinds
}

/// What an operator yields on the kinds of the columns of an operand.
fn result_kinds(op: Operator, operand: &ValueIterator) -> (kinds: Vec<ValueKind>)
    requires
        operand.wf(),
    ensures
        kinds@ == Seq::new(operand.columns as nat, |j: int| op.spec_result_kind(operand@.kinds[j])),
{
    let mut kinds: Vec<ValueKind> = Vec::new();
    let mut j: usize = 0;
    while j < operand.kinds.len()
        invariant
            j <= operand.kinds@.len(),
            operand.wf(),
            kinds@.len() == j,
            forall|c: int| 0 <= c < j ==> #[trigger] kinds@[c] == op.spec_result_kind(operand@.kinds[c]),
        decreases operand.kinds@.len() - j,
    {
        kinds.push(op.result_kind(operand.kinds[j]));
        j += 1;
    }
    assert(kinds@ =~= Seq::new(
        operand.columns as nat,
        |j: int| op.spec_result_kind(operand@.kinds[j]),
    ));
    kinds
}

/// Applies an operator cell by cell.
/// This works the result out and leaves the writing to the caller.
pub fn binary_infix_grid(op: Operator, arguments: &Vec<(u64, ValueIterator)>, out: &Table) -> (r: Result<GridValues, MechErrorKind>)
    requires
        out.wf(),
        arguments_wf(arguments@),
    ensures
        computed(infix_result(op, cursors(arguments@), out@), r),
{
    if arguments.len() > 2 {
        return Err(MechErrorKind::TooManyInputArguments(arguments.len(), 2));
    }
    if arguments.len() < 2 {
        return Err(MechErrorKind::Unhandled);
    }
    let lhs: &ValueIterator = &arguments[0].1;
    let rhs: &ValueIterator = &arguments[1].1;
    let same: bool = lhs.rows == rhs.rows && lhs.columns == rhs.columns;
    let (rows, cols): (usize, usize) = if same {
        (lhs.rows, lhs.columns)
    } else if lhs.is_scalar() {
        (rhs.rows, rhs.columns)
    } else if rhs.is_scalar() {
        (lhs.rows, lhs.columns)
    } else {
        return Err(
            MechErrorKind::DimensionMismatch(
                dimensions_of((lhs.rows, lhs.columns), (rhs.rows, rhs.columns)),
            ),
        );
    };
    let lhs_broadcast: bool = !same && lhs.is_scalar();
    let rhs_broadcast: bool = !same && rhs.is_scalar();
    let n: usize = if lhs_broadcast {
        rhs.len()
    } else {
        lhs.len()
    };
    assert(1 * 1 == 1) by (nonlinear_arith);
    assert(n == rows * cols);
    let kinds: Vec<ValueKind> = if same || !lhs.is_scalar() {
        result_kinds(op, lhs)
    } else {
        result_kinds(op, rhs)
    };
    let mut values: Vec<Option<Value>> = Vec::new();
    let mut k: usize = 0;
    while k < n
        invariant
            k <= n,
            n == rows * cols,
            out.wf(),
            kinds@ == infix_kinds(op, lhs@, rhs@),
            kinds@.len() == cols,
            arguments@.len() == 2,
            lhs@ == cursors(arguments@)[0].1,
            rhs@ == cursors(arguments@)[1].1,
            lhs.wf(),
            rhs.wf(),
            lhs_broadcast == broadcasts(lhs@, rhs@),
            rhs_broadcast == broadcasts(rhs@, lhs@),
            infix_shape(lhs@, rhs@) == Some((rows, cols)),
            !lhs_broadcast ==> lhs.values@.len() == n,
            !rhs_broadcast ==> rhs.values@.len() == n,
            lhs_broadcast ==> lhs.values@.len() == 1,
            rhs_broadcast ==> rhs.values@.len() == 1,
            infix_values(op, lhs@, rhs@, out@, k as nat) == Ok::<Seq<Option<Value>>, MechErrorKind>(
                values@,
            ),
            values@.len() == k,
        decreases n - k,
    {
        let i: usize = if lhs_broadcast {
            0
        } else {
            k
        };
        let j: usize = if rhs_broadcast {
            0
        } else {
            k
        };
        proof {
            if cols == 0 {
                assert(rows * 0 == 0) by (nonlinear_arith);
            }
        }
        let holds: Value = held_at(out, cols, k);
        assert(holds == held(out@, rows as nat, cols as nat, k as int));
        let cell: Option<Value> = if (lhs.changed[i] && rhs.changed[j]) || holds.is_empty()
            || !kinds[k % cols].accepts(&holds) {
            match Value::apply(op, lhs.values[i], rhs.values[j]) {
                Ok(v) => Some(v),
                Err(e) => {
                    proof {
                        assert(infix_cell(op, lhs@, rhs@, out@, k as int) == Err::<
                            Option<Value>,
                            MechErrorKind,
                        >(e));
                        lemma_infix_stops(op, lhs@, rhs@, out@, (k + 1) as nat, n as nat);
                    }
                    return Err(e);
                },
            }
        } else {
            None
        };
        assert(infix_cell(op, lhs@, rhs@, out@, k as int) == Ok::<Option<Value>, MechErrorKind>(cell));
        values.push(cell);
        k += 1;
    }
    Ok(GridValues { rows: rows, cols: cols, values, kinds })
}

/// Applies an operator cell by cell.
pub fn binary_infix(op: Operator, arguments: &Vec<(u64, ValueIterator)>, out: &mut Table) -> (r: Result<(), MechErrorKind>)
    requires
        old(out).wf(),
        arguments_wf(arguments@),
    ensures
        final(out).wf(),
        carried_out(infix_result(op, cursors(arguments@), old(out)@), old(out)@, final(out)@, r),
{
    match binary_infix_grid(op, arguments, out) {
        Ok(grid) => {
            write_grid(out, grid.rows, grid.cols, &grid.values, &grid.kinds);
            Ok(())
        },
        Err(e) => Err(e),
    }
}


/// `math/add`: the sum of two tables, cell by cell.
pub fn math_add(arguments: &Vec<(u64, ValueIterator)>, out: &mut Table) -> (r: Result<(), MechErrorKind>)
    requires
        old(out).wf(),
        arguments_wf(arguments@),
    ensures
        final(out).wf(),
        carried_out(infix_result(Operator::Add, cursors(arguments@), old(out)@), old(out)@, final(out)@, r),
{
    binary_infix(Operator::Add, arguments, out)
}

/// `math/subtract`: the difference of two tables, cell by cell.
pub fn math_subtract(arguments: &Vec<(u64, ValueIterator)>, out: &mut Table) -> (r: Result<
    (),
    MechErrorKind,
>)
    requires
        old(out).wf(),
        arguments_wf(arguments@),
    ensures
        final(out).wf(),
        carried_out(
            infix_result(Operator::Subtract, cursors(arguments@), old(out)@),
            old(out)@,
            final(out)@,
            r,
        ),
{
    binary_infix(Operator::Subtract, arguments, out)
}

/// `math/multiply`: the product of two tables, cell by cell.
pub fn math_multiply(arguments: &Vec<(u64, ValueIterator)>, out: &mut Table) -> (r: Result<
    (),
    MechErrorKind,
>)
    requires
        old(out).wf(),
        arguments_wf(arguments@),
    ensures
        final(out).wf(),
        carried_out(
            infix_result(Operator::Multiply, cursors(arguments@), old(out)@),
            old(out)@,
            final(out)@,
            r,
        ),
{
    binary_infix(Operator::Multiply, arguments, out)
}

/// `math/divide`: the quotient of two tables, cell by cell.
pub fn math_divide(arguments: &Vec<(u64, ValueIterator)>, out: &mut Table) -> (r: Result<
    (),
    MechErrorKind,
>)
    requires
        old(out).wf(),
        arguments_wf(arguments@),
    ensures
        final(out).wf(),
        carried_out(infix_result(Operator::Divide, cursors(arguments@), old(out)@), old(out)@, final(out)@, r),
{
    binary_infix(Operator::Divide, arguments, out)
}

/// `math/exponent`: the powers of one table to another, cell by cell.
pub fn math_exponent(arguments: &Vec<(u64, ValueIterator)>, out: &mut Table) -> (r: Result<
    (),
    MechErrorKind,
>)
    requires
        old(out).wf(),
        arguments_wf(arguments@),
    ensures
        final(out).wf(),
        carried_out(infix_result(Operator::Power, cursors(arguments@), old(out)@), old(out)@, final(out)@, r),
{
    binary_infix(Operator::Power, arguments, out)
}

/// The cells of a cursor from `start` on, `count` of them, each `stride`
/// after the one before.
pub open spec fn strided(values: Seq<Value>, start: int, stride: int, count: nat) -> Seq<Value> {
    Seq::new(count, |t: int| values[start + t * stride])
}

/// The sum of the first `n` cells, starting from `zero`. Empty cells are
/// passed over; where the sum so far is empty, the next cell starts it.
pub open spec fn sum_upto(cells: Seq<Value>, n: nat, zero: Value) -> Result<Value, MechErrorKind>
    decreases n,
{
    if n == 0 {
        Ok(zero)
    } else {
        match sum_upto(cells, (n - 1) as nat, zero) {
            Err(e) => Err(e),
            Ok(sum) => {
                let cell = cells[n - 1];
                if cell is Empty {
                    Ok(sum)
                } else if sum is Empty {
                    Ok(cell)
                } else {
                    Value::spec_apply(Operator::Add, sum, cell)
                }
            },
        }
    }
}

/// Whether one of the first `n` cells holds `true`.
pub open spec fn any_upto(cells: Seq<Value>, n: nat) -> bool
    decreases n,
{
    if n == 0 {
        false
    } else {
        any_upto(cells, (n - 1) as nat) || cells[n - 1] == Value::Bool(true)
    }
}

/// The three ways to reduce a table: each row to one cell, each column to
/// one cell, or the whole table to one cell.
#[derive(Clone, Copy, Debug, PartialEq, Eq, Structural, Hash)]
pub enum Axis {
    Row,
    Column,
    Table,
}

/// The axis that an argument name stands for: the hash of `column`, of
/// `row` or of `table`.
pub open spec fn axis_of(name: u64) -> Option<Axis> {
    if name == spec_hash_chars("column"@) {
        Some(Axis::Column)
    } else if name == spec_hash_chars("row"@) {
        Some(Axis::Row)
    } else if name == spec_hash_chars("table"@) {
        Some(Axis::Table)
    } else {
        None
    }
}

/// The shape of a reduction: one cell for each row, for each column, or for
/// the table.
pub open spec fn reduced_shape(axis: Axis, vi: Cursor) -> (usize, usize) {
    match axis {
        Axis::Row => (vi.rows, 1),
        Axis::Column => (1, vi.columns),
        Axis::Table => (1, 1),
    }
}

/// The cells that go into cell `k` of a reduction along `axis`.
pub open spec fn reduced_cells(axis: Axis, vi: Cursor, k: int) -> Seq<Value> {
    match axis {
        Axis::Row => strided(vi.values, k * vi.columns, 1, vi.columns as nat),
        Axis::Column => strided(vi.values, k, vi.columns as int, vi.rows as nat),
        Axis::Table => strided(vi.values, 0, 1, vi.values.len()),
    }
}

/// The kind in which the cells of several columns are summed: the first of
/// the widest integer kinds among the first `n` columns, or the kind of the
/// first column where none of them is an integer kind.
pub open spec fn widest(kinds: Seq<ValueKind>, n: nat) -> ValueKind
    decreases n,
{
    if n == 0 {
        ValueKind::Empty
    } else if n == 1 {
        kinds[0]
    } else {
        let earlier = widest(kinds, (n - 1) as nat);
        if kinds[n - 1].spec_width() > earlier.spec_width() {
            kinds[n - 1]
        } else {
            earlier
        }
    }
}

/// The kind of cell `k` of a sum along `axis`: the kind of the column that
/// is summed, or the widest kind among the columns where rows or a table
/// are summed.
pub open spec fn sum_kind(axis: Axis, vi: Cursor, k: int) -> ValueKind {
    match axis {
        Axis::Column => if 0 <= k < vi.kinds.len() {
            vi.kinds[k]
        } else {
            ValueKind::Empty
        },
        _ => widest(vi.kinds, vi.kinds.len()),
    }
}

/// The value that a sum starts from: the zero of its kind.
pub open spec fn sum_zero(axis: Axis, vi: Cursor, k: int) -> Value {
    sum_kind(axis, vi, k).spec_zero()
}

/// The cells that go into cell `k` of a sum along `axis`, each as a number
/// of the kind of the sum: an integer of another width is held within the
/// range of that kind.
pub open spec fn summands(axis: Axis, vi: Cursor, k: int) -> Seq<Value> {
    let cells = reduced_cells(axis, vi, k);
    Seq::new(cells.len(), |t: int| cells[t].spec_converted(sum_kind(axis, vi, k)))
}

/// The first `n` sums along `axis`, or the error of the first that fails.
pub open spec fn sums(axis: Axis, vi: Cursor, n: nat) -> Result<Seq<Option<Value>>, MechErrorKind>
    decreases n,
{
    if n == 0 {
        Ok(Seq::empty())
    } else {
        match sums(axis, vi, (n - 1) as nat) {
            Err(e) => Err(e),
            Ok(earlier) => {
                let cells = summands(axis, vi, n - 1);
                match sum_upto(cells, cells.len(), sum_zero(axis, vi, n - 1)) {
                    Err(e) => Err(e),
                    Ok(v) => Ok(earlier.push(Some(v))),
                }
            },
        }
    }
}

/// What `stats/sum` makes of its arguments.
///
/// It takes one argument, named `row`, `column` or `table`, and sums each
/// row, each column, or all cells. The sum of a column is of the kind of
/// the column. The sum of a row or of a table is of the widest integer kind
/// among the columns, and integers of other widths are held within its
/// range before they are added. The sum of no cells is the zero of the
/// kind.
pub open spec fn sum_result(arguments: Seq<(u64, Cursor)>) -> Result<Grid, Failure> {
    if arguments.len() > 1 {
        Err(Failure::Kind(MechErrorKind::TooManyInputArguments(arguments.len() as usize, 1)))
    } else if arguments.len() < 1 {
        Err(Failure::Kind(MechErrorKind::Unhandled))
    } else {
        let vi = arguments[0].1;
        match axis_of(arguments[0].0) {
            None => Err(Failure::Kind(MechErrorKind::UnknownFunctionArgument(arguments[0].0))),
            Some(axis) => {
                let shape = reduced_shape(axis, vi);
                match sums(axis, vi, (shape.0 * shape.1) as nat) {
                    Err(e) => Err(Failure::Kind(e)),
                    Ok(values) => Ok(
                        Grid {
                            rows: shape.0 as nat,
                            cols: shape.1 as nat,
                            values,
                            kinds: Seq::new(shape.1 as nat, |c: int| sum_kind(axis, vi, c)),
                        },
                    ),
                }
            },
        }
    }
}

/// What `set/any` makes of its arguments: for each row, each column, or the
/// table, whether one of its cells holds `true`.
pub open spec fn any_result(arguments: Seq<(u64, Cursor)>) -> Result<Grid, Failure> {
    if arguments.len() > 1 {
        Err(Failure::Kind(MechErrorKind::TooManyInputArguments(arguments.len() as usize, 1)))
    } else if arguments.len() < 1 {
        Err(Failure::Kind(MechErrorKind::Unhandled))
    } else {
        let vi = arguments[0].1;
        match axis_of(arguments[0].0) {
            None => Err(Failure::Kind(MechErrorKind::UnknownFunctionArgument(arguments[0].0))),
            Some(axis) => {
                let shape = reduced_shape(axis, vi);
                Ok(
                    Grid {
                        rows: shape.0 as nat,
                        cols: shape.1 as nat,
                        values: Seq::new(
                            (shape.0 * shape.1) as nat,
                            |k: int|
                                Some(
                                    Value::Bool(
                                        any_upto(
                                            reduced_cells(axis, vi, k),
                                            reduced_cells(axis, vi, k).len(),
                                        ),
                                    ),
                                ),
                        ),
                        kinds: Seq::new(shape.1 as nat, |c: int| ValueKind::Bool),
                    },
                )
            },
        }
    }
}

/// The axis that an argument name stands for.
fn axis_for(name: u64) -> (axis: Option<Axis>)
    ensures
        axis == axis_of(name),
{
    if name == hash_str("column") {
        Some(Axis::Column)
    } else if name == hash_str("row") {
        Some(Axis::Row)
    } else if name == hash_str("table") {
        Some(Axis::Table)
    } else {
        None
    }
}

/// Where the cells of cell `k` of a reduction start in the cursor, how far
/// they lie apart, and how many they are.
fn reduction_walk(axis: Axis, vi: &ValueIterator, k: usize) -> (walk: (usize, usize, usize))
    requires
        vi.wf(),
        k < reduced_shape(axis, vi@).0 * reduced_shape(axis, vi@).1,
    ensures
        reduced_cells(axis, vi@, k as int) == strided(
            vi.values@,
            walk.0 as int,
            walk.1 as int,
            walk.2 as nat,
        ),
        forall|t: int| 0 <= t < walk.2 ==> 0 <= walk.0 + #[trigger] (t * walk.1) < vi.values@.len(),
{
    let n: usize = vi.values.len();
    match axis {
        Axis::Row => {
            assert(reduced_shape(axis, vi@).0 * 1 == vi.rows) by (nonlinear_arith)
                requires
                    reduced_shape(axis, vi@).0 == vi.rows,
            ;
            assert(k * vi.columns + vi.columns <= vi.rows * vi.columns && k * vi.columns >= 0) by (nonlinear_arith)
                requires
                    k < vi.rows,
            ;
            assert forall|t: int| 0 <= t < vi.columns implies 0 <= k * vi.columns + #[trigger] (t
                * 1) < vi.values@.len() by {}
            (k * vi.columns, 1, vi.columns)
        },
        Axis::Column => {
            assert(1 * reduced_shape(axis, vi@).1 == vi.columns) by (nonlinear_arith)
                requires
                    reduced_shape(axis, vi@).1 == vi.columns,
            ;
            assert forall|t: int| 0 <= t < vi.rows implies 0 <= k + #[trigger] (t * vi.columns)
                < vi.values@.len() by {
                assert(t * vi.columns + vi.columns <= vi.rows * vi.columns && t * vi.columns >= 0) by (nonlinear_arith)
                    requires
                        0 <= t < vi.rows,
                ;
            }
            (k, vi.columns, vi.rows)
        },
        Axis::Table => {
            assert forall|t: int| 0 <= t < n implies 0 <= 0 + #[trigger] (t * 1) < vi.values@.len() by {}
            (0, 1, n)
        },
    }
}

/// The kind in which the cells of several columns are summed.
fn widest_of(kinds: &Vec<ValueKind>) -> (kind: ValueKind)
    ensures
        kind == widest(kinds@, kinds@.len()),
{
    if kinds.len() == 0 {
        return ValueKind::Empty;
    }
    let mut kind: ValueKind = kinds[0];
    let mut i: usize = 1;
    while i < kinds.len()
        invariant
            1 <= i <= kinds@.len(),
            kind == widest(kinds@, i as nat),
        decreases kinds@.len() - i,
    {
        if kinds[i].width() > kind.width() {
            kind = kinds[i];
        }
        i += 1;
    }
    kind
}

/// `stats/sum`: the sum of each row, of each column, or of all cells.
/// This works the result out and leaves the writing to the caller.
pub fn stats_sum_grid(arguments: &Vec<(u64, ValueIterator)>) -> (r: Result<GridValues, MechErrorKind>)
    requires
        arguments_wf(arguments@),
    ensures
        computed(sum_result(cursors(arguments@)), r),
{
    if arguments.len() > 1 {
        return Err(MechErrorKind::TooManyInputArguments(arguments.len(), 1));
    }
    if arguments.len() < 1 {
        return Err(MechErrorKind::Unhandled);
    }
    let name: u64 = arguments[0].0;
    let vi: &ValueIterator = &arguments[0].1;
    let axis: Axis = match axis_for(name) {
        Some(axis) => axis,
        None => {
            return Err(MechErrorKind::UnknownFunctionArgument(name));
        },
    };
    let (rows, cols): (usize, usize) = match axis {
        Axis::Row => (vi.rows, 1),
        Axis::Column => (1, vi.columns),
        Axis::Table => (1, 1),
    };
    assert(rows * cols <= usize::MAX && rows * cols == (match axis {
        Axis::Row => vi.rows as int,
        Axis::Column => vi.columns as int,
        Axis::Table => 1int,
    })) by (nonlinear_arith)
        requires
            (rows, cols) == (match axis {
                Axis::Row => (vi.rows, 1usize),
                Axis::Column => (1usize, vi.columns),
                Axis::Table => (1usize, 1usize),
            }),
    ;
    let n: usize = rows * cols;
    let wide: ValueKind = widest_of(&vi.kinds);
    let mut values: Vec<Option<Value>> = Vec::new();
    let mut k: usize = 0;
    while k < n
        invariant
            k <= n,
            n == rows * cols,
            (rows, cols) == reduced_shape(axis, vi@),
            vi.wf(),
            arguments@.len() == 1,
            vi@ == cursors(arguments@)[0].1,
            name == arguments@[0].0,
            axis_of(name) == Some(axis),
            wide == widest(vi@.kinds, vi@.kinds.len()),
            values@.len() == k,
            sums(axis, vi@, k as nat) == Ok::<Seq<Option<Value>>, MechErrorKind>(values@),
        decreases n - k,
    {
        let (start, stride, count) = reduction_walk(axis, vi, k);
        let kind: ValueKind = match axis {
            Axis::Column => if k < vi.kinds.len() {
                vi.kinds[k]
            } else {
                ValueKind::Empty
            },
            _ => wide,
        };
        let zero: Value = kind.zero();
        let ghost cells = summands(axis, vi@, k as int);
        let mut sum: Value = zero;
        let mut t: usize = 0;
        while t < count
            invariant
                t <= count,
                vi.wf(),
                reduced_cells(axis, vi@, k as int) == strided(
                    vi.values@,
                    start as int,
                    stride as int,
                    count as nat,
                ),
                forall|u: int| 0 <= u < count ==> 0 <= start + #[trigger] (u * stride) < vi.values@.len(),
                sum_upto(cells, t as nat, zero) == Ok::<Value, MechErrorKind>(sum),
                k < n,
                n == rows * cols,
                (rows, cols) == reduced_shape(axis, vi@),
                arguments@.len() == 1,
                vi@ == cursors(arguments@)[0].1,
                name == arguments@[0].0,
                axis_of(name) == Some(axis),
                cells == summands(axis, vi@, k as int),
                kind == sum_kind(axis, vi@, k as int),
                zero == sum_zero(axis, vi@, k as int),
                sums(axis, vi@, k as nat) == Ok::<Seq<Option<Value>>, MechErrorKind>(values@),
            decreases count - t,
        {
            let limit: usize = vi.values.len();
            assert(0 <= start + t * stride < limit);
            assert(t * stride >= 0) by (nonlinear_arith)
                requires
                    t >= 0,
                    stride >= 0,
            ;
            let cell: Value = vi.values[start + t * stride].converted(kind);
            assert(cell == cells[t as int]);
            if !cell.is_empty() {
                if sum.is_empty() {
                    sum = cell;
                } else {
                    match Value::apply(Operator::Add, sum, cell) {
                        Ok(v) => {
                            sum = v;
                        },
                        Err(e) => {
                            proof {
                                lemma_sum_stops(cells, (t + 1) as nat, cells.len(), zero);
                                lemma_sums_stop(axis, vi@, (k + 1) as nat, n as nat);
                            }
                            return Err(e);
                        },
                    }
                }
            }
            t += 1;
        }
        values.push(Some(sum));
        k += 1;
    }
    let mut kinds: Vec<ValueKind> = Vec::new();
    let mut c: usize = 0;
    while c < cols
        invariant
            c <= cols,
            vi.wf(),
            (rows, cols) == reduced_shape(axis, vi@),
            wide == widest(vi@.kinds, vi@.kinds.len()),
            kinds@.len() == c,
            forall|j: int| 0 <= j < c ==> #[trigger] kinds@[j] == sum_kind(axis, vi@, j),
        decreases cols - c,
    {
        let kind: ValueKind = match axis {
            Axis::Column => if c < vi.kinds.len() {
                vi.kinds[c]
            } else {
                ValueKind::Empty
            },
            _ => wide,
        };
        kinds.push(kind);
        c += 1;
    }
    assert(kinds@ =~= Seq::new(cols as nat, |c: int| sum_kind(axis, vi@, c)));
    Ok(GridValues { rows: rows, cols: cols, values, kinds })
}

/// `stats/sum`: the sum of each row, of each column, or of all cells.
pub fn stats_sum(arguments: &Vec<(u64, ValueIterator)>, out: &mut Table) -> (r: Result<(), MechErrorKind>)
    requires
        old(out).wf(),
        arguments_wf(arguments@),
    ensures
        final(out).wf(),
        carried_out(sum_result(cursors(arguments@)), old(out)@, final(out)@, r),
{
    match stats_sum_grid(arguments) {
        Ok(grid) => {
            write_grid(out, grid.rows, grid.cols, &grid.values, &grid.kinds);
            Ok(())
        },
        Err(e) => Err(e),
    }
}

proof fn lemma_sum_stops(cells: Seq<Value>, failed: nat, n: nat, zero: Value)
    requires
        failed <= n,
        sum_upto(cells, failed, zero) is Err,
    ensures
        sum_upto(cells, n, zero) == sum_upto(cells, failed, zero),
    decreases n,
{
    if failed < n {
        lemma_sum_stops(cells, failed, (n - 1) as nat, zero);
    }
}

proof fn lemma_sums_stop(axis: Axis, vi: Cursor, failed: nat, n: nat)
    requires
        failed <= n,
        sums(axis, vi, failed) is Err,
    ensures
        sums(axis, vi, n) == sums(axis, vi, failed),
    decreases n,
{
    if failed < n {
        lemma_sums_stop(axis, vi, failed, (n - 1) as nat);
    }
}

/// `set/any`: whether a cell of each row, of each column, or of the table
/// holds `true`.
/// This works the result out and leaves the writing to the caller.
pub fn set_any_grid(arguments: &Vec<(u64, ValueIterator)>) -> (r: Result<GridValues, MechErrorKind>)
    requires
        arguments_wf(arguments@),
    ensures
        computed(any_result(cursors(arguments@)), r),
{
    if arguments.len() > 1 {
        return Err(MechErrorKind::TooManyInputArguments(arguments.len(), 1));
    }
    if arguments.len() < 1 {
        return Err(MechErrorKind::Unhandled);
    }
    let name: u64 = arguments[0].0;
    let vi: &ValueIterator = &arguments[0].1;
    let axis: Axis = match axis_for(name) {
        Some(axis) => axis,
        None => {
            return Err(MechErrorKind::UnknownFunctionArgument(name));
        },
    };
    let (rows, cols): (usize, usize) = match axis {
        Axis::Row => (vi.rows, 1),
        Axis::Column => (1, vi.columns),
        Axis::Table => (1, 1),
    };
    assert(rows * cols <= usize::MAX && rows * cols == (match axis {
        Axis::Row => vi.rows as int,
        Axis::Column => vi.columns as int,
        Axis::Table => 1int,
    })) by (nonlinear_arith)
        requires
            (rows, cols) == (match axis {
                Axis::Row => (vi.rows, 1usize),
                Axis::Column => (1usize, vi.columns),
                Axis::Table => (1usize, 1usize),
            }),
    ;
    let n: usize = rows * cols;
    let mut values: Vec<Option<Value>> = Vec::new();
    let mut k: usize = 0;
    while k < n
        invariant
            k <= n,
            n == rows * cols,
            (rows, cols) == reduced_shape(axis, vi@),
            vi.wf(),
            values@.len() == k,
            forall|i: int|
                0 <= i < k ==> #[trigger] values@[i] == Some(
                    Value::Bool(
                        any_upto(reduced_cells(axis, vi@, i), reduced_cells(axis, vi@, i).len()),
                    ),
                ),
        decreases n - k,
    {
        let (start, stride, count) = reduction_walk(axis, vi, k);
        let ghost cells = reduced_cells(axis, vi@, k as int);
        let mut flag: bool = false;
        let mut t: usize = 0;
        while t < count
            invariant
                t <= count,
                vi.wf(),
                cells == strided(vi.values@, start as int, stride as int, count as nat),
                forall|u: int| 0 <= u < count ==> 0 <= start + #[trigger] (u * stride) < vi.values@.len(),
                flag == any_upto(cells, t as nat),
            decreases count - t,
        {
            let limit: usize = vi.values.len();
            assert(0 <= start + t * stride < limit);
            assert(t * stride >= 0) by (nonlinear_arith)
                requires
                    t >= 0,
                    stride >= 0,
            ;
            let cell: Value = vi.values[start + t * stride];
            assert(cell == cells[t as int]);
            if cell == Value::Bool(true) {
                flag = true;
            }
            t += 1;
        }
        values.push(Some(Value::Bool(flag)));
        k += 1;
    }
    assert(values@ =~= any_result(cursors(arguments@))->Ok_0.values);
    let mut kinds: Vec<ValueKind> = Vec::new();
    let mut c: usize = 0;
    while c < cols
        invariant
            c <= cols,
            kinds@.len() == c,
            forall|j: int| 0 <= j < c ==> #[trigger] kinds@[j] == ValueKind::Bool,
        decreases cols - c,
    {
        kinds.push(ValueKind::Bool);
        c += 1;
    }
    assert(kinds@ =~= Seq::new(cols as nat, |c: int| ValueKind::Bool));
    Ok(GridValues { rows: rows, cols: cols, values, kinds })
}

/// `set/any`: whether a cell of each row, of each column, or of the table
/// holds `true`.
pub fn set_any(arguments: &Vec<(u64, ValueIterator)>, out: &mut Table) -> (r: Result<(), MechErrorKind>)
    requires
        old(out).wf(),
        arguments_wf(arguments@),
    ensures
        final(out).wf(),
        carried_out(any_result(cursors(arguments@)), old(out)@, final(out)@, r),
{
    match set_any_grid(arguments) {
        Ok(grid) => {
            write_grid(out, grid.rows, grid.cols, &grid.values, &grid.kinds);
            Ok(())
        },
        Err(e) => Err(e),
    }
}

/// What `table/copy` makes of its argument: the cells of the argument.
pub open spec fn copy_result(arguments: Seq<(u64, Cursor)>) -> Result<Grid, Failure> {
    if arguments.len() > 1 {
        Err(Failure::Kind(MechErrorKind::TooManyInputArguments(arguments.len() as usize, 1)))
    } else if arguments.len() < 1 {
        Err(Failure::Kind(MechErrorKind::Unhandled))
    } else {
        let vi = arguments[0].1;
        Ok(
            Grid {
                rows: vi.rows as nat,
                cols: vi.columns as nat,
                values: Seq::new(vi.values.len(), |k: int| Some(vi.values[k])),
                kinds: vi.kinds,
            },
        )
    }
}

/// `table/copy`: the output table becomes a copy of the argument.
/// This works the result out and leaves the writing to the caller.
pub fn table_copy_grid(arguments: &Vec<(u64, ValueIterator)>) -> (r: Result<GridValues, MechErrorKind>)
    requires
        arguments_wf(arguments@),
    ensures
        computed(copy_result(cursors(arguments@)), r),
{
    if arguments.len() > 1 {
        return Err(MechErrorKind::TooManyInputArguments(arguments.len(), 1));
    }
    if arguments.len() < 1 {
        return Err(MechErrorKind::Unhandled);
    }
    let vi: &ValueIterator = &arguments[0].1;
    let n: usize = vi.len();
    let mut values: Vec<Option<Value>> = Vec::new();
    let mut k: usize = 0;
    while k < n
        invariant
            k <= n,
            n == vi.values@.len(),
            values@.len() == k,
            forall|i: int| 0 <= i < k ==> #[trigger] values@[i] == Some(vi.values@[i]),
        decreases n - k,
    {
        values.push(Some(vi.values[k]));
        k += 1;
    }
    assert(values@ =~= copy_result(cursors(arguments@))->Ok_0.values);
    Ok(GridValues { rows: vi.rows, cols: vi.columns, values, kinds: kinds_of(vi) })
}

/// `table/copy`: the output table becomes a copy of the argument.
pub fn table_copy(arguments: &Vec<(u64, ValueIterator)>, out: &mut Table) -> (r: Result<(), MechErrorKind>)
    requires
        old(out).wf(),
        arguments_wf(arguments@),
    ensures
        final(out).wf(),
        carried_out(copy_result(cursors(arguments@)), old(out)@, final(out)@, r),
{
    match table_copy_grid(arguments) {
        Ok(grid) => {
            write_grid(out, grid.rows, grid.cols, &grid.values, &grid.kinds);
            Ok(())
        },
        Err(e) => Err(e),
    }
}


/// The whole number that a scalar argument holds.
pub open spec fn scalar_u64(vi: Cursor) -> Result<u64, MechErrorKind> {
    if !vi.is_scalar() {
        Err(MechErrorKind::UnhandledTableShape(vi.shape()))
    } else {
        match vi.values[0].spec_as_u64() {
            Some(x) => Ok(x),
            None => Err(MechErrorKind::UnhandledFunctionArgumentKind(vi.values[0].kind())),
        }
    }
}

/// The number of steps from `start` to `end`, both counted.
pub open spec fn range_len(start: u64, end: u64, step: u64) -> int {
    if end < start {
        0
    } else {
        (end - start) / (step as int) + 1
    }
}

/// What `table/range` makes of its arguments.
///
/// It takes a first and a last number and, if there is a third argument, a
/// step; without one the step is one. Each must be a scalar that holds a
/// whole number. The result is one column: the first number, then one step
/// further each, up to the last number.
pub open spec fn range_result(arguments: Seq<(u64, Cursor)>) -> Result<Grid, Failure> {
    if arguments.len() > 3 {
        Err(Failure::Kind(MechErrorKind::TooManyInputArguments(arguments.len() as usize, 3)))
    } else if arguments.len() < 2 {
        Err(Failure::Kind(MechErrorKind::Unhandled))
    } else {
        match scalar_u64(arguments[0].1) {
            Err(e) => Err(Failure::Kind(e)),
            Ok(start) => match scalar_u64(arguments[1].1) {
                Err(e) => Err(Failure::Kind(e)),
                Ok(end) => match (if arguments.len() == 3 {
                    scalar_u64(arguments[2].1)
                } else {
                    Ok(1u64)
                }) {
                    Err(e) => Err(Failure::Kind(e)),
                    Ok(step) => if step == 0 {
                        Err(Failure::Kind(MechErrorKind::DivideByZero))
                    } else if range_len(start, end, step) > usize::MAX {
                        Err(Failure::Kind(MechErrorKind::Unhandled))
                    } else {
                        Ok(
                            Grid {
                                rows: range_len(start, end, step) as nat,
                                cols: 1,
                                values: Seq::new(
                                    range_len(start, end, step) as nat,
                                    |k: int| Some(Value::U64((start + k * step) as u64)),
                                ),
                                kinds: seq![ValueKind::U64],
                            },
                        )
                    },
                },
            },
        }
    }
}

/// The whole number that a scalar argument holds.
fn read_scalar(vi: &ValueIterator) -> (r: Result<u64, MechErrorKind>)
    requires
        vi.wf(),
    ensures
        r == scalar_u64(vi@),
{
    if !vi.is_scalar() {
        return Err(MechErrorKind::UnhandledTableShape(vi.shape()));
    }
    assert(1 * 1 == 1) by (nonlinear_arith);
    match vi.values[0].as_u64() {
        Some(x) => Ok(x),
        None => Err(MechErrorKind::UnhandledFunctionArgumentKind(vi.values[0].kind())),
    }
}

proof fn lemma_range_step(start: u64, end: u64, step: u64, k: int)
    requires
        step > 0,
        start <= end,
        0 <= k < range_len(start, end, step),
    ensures
        start + k * step <= end,
        k * step >= 0,
{
    let x = end - start;
    let q = x / (step as int);
    vstd::arithmetic::div_mod::lemma_fundamental_div_mod(x, step as int);
    vstd::arithmetic::div_mod::lemma_mod_bound(x, step as int);
    assert(k * step <= q * step && k * step >= 0) by (nonlinear_arith)
        requires
            0 <= k <= q,
            step > 0,
    ;
    assert(step * q == q * step) by (nonlinear_arith);
}

/// `table/range`: the numbers from a first to a last.
/// This works the result out and leaves the writing to the caller.
pub fn table_range_grid(arguments: &Vec<(u64, ValueIterator)>) -> (r: Result<GridValues, MechErrorKind>)
    requires
        arguments_wf(arguments@),
    ensures
        computed(range_result(cursors(arguments@)), r),
{
    if arguments.len() > 3 {
        return Err(MechErrorKind::TooManyInputArguments(arguments.len(), 3));
    }
    if arguments.len() < 2 {
        return Err(MechErrorKind::Unhandled);
    }
    let start: u64 = match read_scalar(&arguments[0].1) {
        Ok(x) => x,
        Err(e) => {
            return Err(e);
        },
    };
    let end: u64 = match read_scalar(&arguments[1].1) {
        Ok(x) => x,
        Err(e) => {
            return Err(e);
        },
    };
    let step: u64 = if arguments.len() == 3 {
        match read_scalar(&arguments[2].1) {
            Ok(x) => x,
            Err(e) => {
                return Err(e);
            },
        }
    } else {
        1
    };
    if step == 0 {
        return Err(MechErrorKind::DivideByZero);
    }
    let len: u128 = if end < start {
        0
    } else {
        ((end - start) / step) as u128 + 1
    };
    if len > usize::MAX as u128 {
        return Err(MechErrorKind::Unhandled);
    }
    let n: usize = len as usize;
    let mut values: Vec<Option<Value>> = Vec::new();
    let mut k: usize = 0;
    while k < n
        invariant
            k <= n,
            n == range_len(start, end, step),
            step > 0,
            values@.len() == k,
            forall|i: int| 0 <= i < k ==> #[trigger] values@[i] == Some(Value::U64((start + i * step) as u64)),
        decreases n - k,
    {
        proof {
            lemma_range_step(start, end, step, k as int);
        }
        let offset: u64 = k as u64 * step;
        values.push(Some(Value::U64(start + offset)));
        k += 1;
    }
    assert(values@ =~= range_result(cursors(arguments@))->Ok_0.values);
    assert(n * 1 == n) by (nonlinear_arith);
    let mut kinds: Vec<ValueKind> = Vec::new();
    kinds.push(ValueKind::U64);
    assert(kinds@ =~= seq![ValueKind::U64]);
    Ok(GridValues { rows: n, cols: 1, values, kinds })
}

/// `table/range`: the numbers from a first to a last.
pub fn table_range(arguments: &Vec<(u64, ValueIterator)>, out: &mut Table) -> (r: Result<(), MechErrorKind>)
    requires
        old(out).wf(),
        arguments_wf(arguments@),
    ensures
        final(out).wf(),
        carried_out(range_result(cursors(arguments@)), old(out)@, final(out)@, r),
{
    match table_range_grid(arguments) {
        Ok(grid) => {
            write_grid(out, grid.rows, grid.cols, &grid.values, &grid.kinds);
            Ok(())
        },
        Err(e) => Err(e),
    }
}

/// The dimensions of the arguments, as (rows, columns).
pub open spec fn dimensions(arguments: Seq<(u64, Cursor)>) -> Seq<(usize, usize)> {
    Seq::new(arguments.len(), |t: int| (arguments[t].1.rows, arguments[t].1.columns))
}

/// The largest number of rows among the first `n` arguments.
pub open spec fn max_rows(arguments: Seq<(u64, Cursor)>, n: nat) -> nat
    decreases n,
{
    if n == 0 {
        0
    } else {
        let m = max_rows(arguments, (n - 1) as nat);
        if arguments[n - 1].1.rows > m {
            arguments[n - 1].1.rows as nat
        } else {
            m
        }
    }
}

/// The number of columns of the first `n` arguments together.
pub open spec fn total_cols(arguments: Seq<(u64, Cursor)>, n: nat) -> nat
    decreases n,
{
    if n == 0 {
        0
    } else {
        total_cols(arguments, (n - 1) as nat) + arguments[n - 1].1.columns as nat
    }
}

/// The number of rows of the first `n` arguments together.
pub open spec fn total_rows(arguments: Seq<(u64, Cursor)>, n: nat) -> nat
    decreases n,
{
    if n == 0 {
        0
    } else {
        total_rows(arguments, (n - 1) as nat) + arguments[n - 1].1.rows as nat
    }
}

/// Whether each of the first `n` arguments has `rows` rows or one.
pub open spec fn rows_fit(arguments: Seq<(u64, Cursor)>, n: nat, rows: nat) -> bool {
    forall|t: int|
        0 <= t < n ==> (#[trigger] arguments[t]).1.rows == rows || arguments[t].1.rows == 1
}

/// Whether each of the first `n` arguments has `cols` columns.
pub open spec fn cols_agree(arguments: Seq<(u64, Cursor)>, n: nat, cols: nat) -> bool {
    forall|t: int| 0 <= t < n ==> (#[trigger] arguments[t]).1.columns == cols
}

/// The cell in row `i` and column `j`, both counted from zero, of the first
/// `n` arguments set side by side. An argument of one row stands in every
/// row.
pub open spec fn hcat_cell(arguments: Seq<(u64, Cursor)>, n: nat, i: int, j: int) -> Value
    decreases n,
{
    if n == 0 {
        Value::Empty
    } else {
        let offset = total_cols(arguments, (n - 1) as nat);
        let last = arguments[n - 1].1;
        if j >= offset {
            last.values[(if last.rows == 1 {
                0
            } else {
                i
            }) * last.columns + (j - offset)]
        } else {
            hcat_cell(arguments, (n - 1) as nat, i, j)
        }
    }
}

/// What `table/horizontal-concatenate` makes of its arguments.
///
/// The result has as many rows as the tallest argument and the columns of
/// all arguments, side by side. Every argument must be that tall or have one
/// row; one row is repeated in every row of the result.
pub open spec fn hcat_result(arguments: Seq<(u64, Cursor)>) -> Result<Grid, Failure> {
    let rows = max_rows(arguments, arguments.len());
    let cols = total_cols(arguments, arguments.len());
    if arguments.len() == 0 {
        Err(Failure::Kind(MechErrorKind::Unhandled))
    } else if !rows_fit(arguments, arguments.len(), rows) {
        Err(Failure::Dimensions(dimensions(arguments)))
    } else if cols > usize::MAX || rows * cols > usize::MAX {
        Err(Failure::Kind(MechErrorKind::Unhandled))
    } else {
        Ok(
            Grid {
                rows,
                cols,
                values: Seq::new(
                    rows * cols,
                    |k: int|
                        Some(
                            hcat_cell(
                                arguments,
                                arguments.len(),
                                k / (cols as int),
                                k % (cols as int),
                            ),
                        ),
                ),
                kinds: hcat_kinds(arguments, arguments.len()),
            },
        )
    }
}

/// The kinds of the columns of the first `n` arguments, one argument after
/// another.
pub open spec fn hcat_kinds(arguments: Seq<(u64, Cursor)>, n: nat) -> Seq<ValueKind>
    decreases n,
{
    if n == 0 {
        Seq::empty()
    } else {
        hcat_kinds(arguments, (n - 1) as nat) + arguments[n - 1].1.kinds
    }
}

/// The cells of the first `n` arguments, one argument after another.
pub open spec fn vcat_values(arguments: Seq<(u64, Cursor)>, n: nat) -> Seq<Option<Value>>
    decreases n,
{
    if n == 0 {
        Seq::empty()
    } else {
        vcat_values(arguments, (n - 1) as nat) + Seq::new(
            arguments[n - 1].1.values.len(),
            |k: int| Some(arguments[n - 1].1.values[k]),
        )
    }
}

/// What `table/vertical-concatenate` makes of its arguments.
///
/// The result has the rows of all arguments, one argument below another.
/// All arguments must have the same number of columns.
pub open spec fn vcat_result(arguments: Seq<(u64, Cursor)>) -> Result<Grid, Failure> {
    let rows = total_rows(arguments, arguments.len());
    if arguments.len() == 0 {
        Err(Failure::Kind(MechErrorKind::Unhandled))
    } else if !cols_agree(arguments, arguments.len(), arguments[0].1.columns as nat) {
        Err(Failure::Dimensions(dimensions(arguments)))
    } else if rows > usize::MAX || rows * arguments[0].1.columns > usize::MAX {
        Err(Failure::Kind(MechErrorKind::Unhandled))
    } else {
        Ok(
            Grid {
                rows,
                cols: arguments[0].1.columns as nat,
                values: vcat_values(arguments, arguments.len()),
                kinds: arguments[0].1.kinds,
            },
        )
    }
}

/// The dimensions of the arguments, as a list.
fn dimensions_list(arguments: &Vec<(u64, ValueIterator)>) -> (dims: Vec<(usize, usize)>)
    ensures
        dims@ == dimensions(cursors(arguments@)),
{
    let mut dims: Vec<(usize, usize)> = Vec::new();
    let mut t: usize = 0;
    while t < arguments.len()
        invariant
            t <= arguments@.len(),
            dims@.len() == t,
            forall|u: int|
                0 <= u < t ==> #[trigger] dims@[u] == (arguments@[u].1.rows, arguments@[u].1.columns),
        decreases arguments@.len() - t,
    {
        dims.push((arguments[t].1.rows, arguments[t].1.columns));
        t += 1;
    }
    assert(dims@ =~= dimensions(cursors(arguments@)));
    dims
}

/// The columns of the first `a` operands are no more than those of the first
/// `b`, where `a <= b`.
pub proof fn lemma_total_cols_monotonic(arguments: Seq<(u64, Cursor)>, a: nat, b: nat)
    requires
        a <= b,
    ensures
        total_cols(arguments, a) <= total_cols(arguments, b),
    decreases b,
{
    if a < b {
        lemma_total_cols_monotonic(arguments, a, (b - 1) as nat);
    }
}

/// A column that lies within argument `t` holds the cells of that argument.
pub proof fn lemma_hcat_cell(arguments: Seq<(u64, Cursor)>, n: nat, t: int, i: int, j: int)
    requires
        0 <= t < n,
        total_cols(arguments, t as nat) <= j < total_cols(arguments, (t + 1) as nat),
    ensures
        hcat_cell(arguments, n, i, j) == arguments[t].1.values[(if arguments[t].1.rows == 1 {
            0
        } else {
            i
        }) * arguments[t].1.columns + (j - total_cols(arguments, t as nat))],
    decreases n,
{
    if n - 1 > t {
        lemma_total_cols_monotonic(arguments, (t + 1) as nat, (n - 1) as nat);
        lemma_hcat_cell(arguments, (n - 1) as nat, t, i, j);
    }
}

/// `table/horizontal-concatenate`: the arguments side by side.
/// This works the result out and leaves the writing to the caller.
pub fn table_horizontal_concatenate_grid(arguments: &Vec<(u64, ValueIterator)>) -> (r: Result<GridValues, MechErrorKind>)
    requires
        arguments_wf(arguments@),
    ensures
        computed(hcat_result(cursors(arguments@)), r),
{
    let count: usize = arguments.len();
    if count == 0 {
        return Err(MechErrorKind::Unhandled);
    }
    let mut rows: usize = 0;
    let mut t: usize = 0;
    while t < count
        invariant
            t <= count,
            count == arguments@.len(),
            rows == max_rows(cursors(arguments@), t as nat),
        decreases count - t,
    {
        if arguments[t].1.rows > rows {
            rows = arguments[t].1.rows;
        }
        t += 1;
    }
    let mut fits: bool = true;
    let mut t: usize = 0;
    while t < count
        invariant
            t <= count,
            count == arguments@.len(),
            fits == rows_fit(cursors(arguments@), t as nat, rows as nat),
        decreases count - t,
    {
        assert(cursors(arguments@)[t as int].1 == arguments@[t as int].1@);
        if arguments[t].1.rows != rows && arguments[t].1.rows != 1 {
            fits = false;
        }
        t += 1;
    }
    if !fits {
        return Err(MechErrorKind::DimensionMismatch(dimensions_list(arguments)));
    }
    let mut cols: usize = 0;
    let mut t: usize = 0;
    while t < count
        invariant
            t <= count,
            count == arguments@.len(),
            count > 0,
            cols == total_cols(cursors(arguments@), t as nat),
            rows == max_rows(cursors(arguments@), count as nat),
            rows_fit(cursors(arguments@), count as nat, rows as nat),
            rows * cols <= usize::MAX,
        decreases count - t,
    {
        let wider: Option<usize> = match cols.checked_add(arguments[t].1.columns) {
            Some(sum) => match rows.checked_mul(sum) {
                Some(_) => Some(sum),
                None => None,
            },
            None => None,
        };
        match wider {
            Some(sum) => {
                cols = sum;
            },
            None => {
                proof {
                    lemma_total_cols_monotonic(cursors(arguments@), (t + 1) as nat, count as nat);
                    let all = total_cols(cursors(arguments@), count as nat) as int;
                    let some = total_cols(cursors(arguments@), (t + 1) as nat) as int;
                    assert(rows * all >= rows * some) by (nonlinear_arith)
                        requires
                            rows >= 0,
                            all >= some,
                            some >= 0,
                    ;
                }
                return Err(MechErrorKind::Unhandled);
            },
        }
        t += 1;
    }
    let n: usize = rows * cols;
    let mut values: Vec<Option<Value>> = Vec::new();
    let mut k: usize = 0;
    while k < n
        invariant
            k <= n,
            n == rows * cols,
            count == arguments@.len(),
            arguments_wf(arguments@),
            cols == total_cols(cursors(arguments@), count as nat),
            rows == max_rows(cursors(arguments@), count as nat),
            rows_fit(cursors(arguments@), count as nat, rows as nat),
            values@.len() == k,
            forall|x: int|
                0 <= x < k ==> #[trigger] values@[x] == Some(
                    hcat_cell(cursors(arguments@), count as nat, x / (cols as int), x % (cols as int)),
                ),
        decreases n - k,
    {
        proof {
            lemma_linear_position(k as int, rows as int, cols as int);
        }
        let i: usize = k / cols;
        let j: usize = k % cols;
        let mut offset: usize = 0;
        let mut t: usize = 0;
        let mut found: Option<Value> = None;
        while t < count && found.is_none()
            invariant
                t <= count,
                count == arguments@.len(),
                arguments_wf(arguments@),
                offset == total_cols(cursors(arguments@), t as nat),
                cols == total_cols(cursors(arguments@), count as nat),
                rows_fit(cursors(arguments@), count as nat, rows as nat),
                i < rows,
                j < cols,
                found is None ==> offset <= j,
                found is Some ==> found->0 == hcat_cell(cursors(arguments@), count as nat, i as int, j as int),
            decreases count - t + (if found is None { 1int } else { 0int }),
        {
            let vi: &ValueIterator = &arguments[t].1;
            proof {
                lemma_total_cols_monotonic(cursors(arguments@), (t + 1) as nat, count as nat);
            }
            if j - offset < vi.columns {
                let row: usize = if vi.rows == 1 {
                    0
                } else {
                    i
                };
                proof {
                    lemma_hcat_cell(cursors(arguments@), count as nat, t as int, i as int, j as int);
                    assert(arguments@[t as int].1.rows == rows || arguments@[t as int].1.rows == 1);
                    lemma_address_bound(
                        row + 1,
                        j - offset + 1,
                        vi.rows as int,
                        vi.columns as int,
                    );
                    assert(row * vi.columns >= 0) by (nonlinear_arith)
                        requires
                            row >= 0,
                            vi.columns >= 0,
                    ;
                }
                let limit: usize = vi.values.len();
                assert(row * vi.columns + (j - offset) < limit);
                found = Some(vi.values[row * vi.columns + (j - offset)]);
            } else {
                offset = offset + vi.columns;
                t += 1;
            }
        }
        let value: Value = match found {
            Some(v) => v,
            None => Value::Empty,
        };
        values.push(Some(value));
        k += 1;
    }
    assert(values@ =~= hcat_result(cursors(arguments@))->Ok_0.values);
    let mut kinds: Vec<ValueKind> = Vec::new();
    let mut t: usize = 0;
    while t < count
        invariant
            t <= count,
            count == arguments@.len(),
            kinds@ == hcat_kinds(cursors(arguments@), t as nat),
        decreases count - t,
    {
        let mut more: Vec<ValueKind> = kinds_of(&arguments[t].1);
        kinds.append(&mut more);
        t += 1;
    }
    Ok(GridValues { rows: rows, cols: cols, values, kinds })
}

/// `table/horizontal-concatenate`: the arguments side by side.
pub fn table_horizontal_concatenate(arguments: &Vec<(u64, ValueIterator)>, out: &mut Table) -> (r: Result<(), MechErrorKind>)
    requires
        old(out).wf(),
        arguments_wf(arguments@),
    ensures
        final(out).wf(),
        carried_out(hcat_result(cursors(arguments@)), old(out)@, final(out)@, r),
{
    match table_horizontal_concatenate_grid(arguments) {
        Ok(grid) => {
            write_grid(out, grid.rows, grid.cols, &grid.values, &grid.kinds);
            Ok(())
        },
        Err(e) => Err(e),
    }
}

proof fn lemma_vcat_len(arguments: Seq<(u64, Cursor)>, n: nat, cols: nat)
    requires
        n <= arguments.len(),
        cursors_wf(arguments),
        cols_agree(arguments, n, cols),
    ensures
        vcat_values(arguments, n).len() == total_rows(arguments, n) * cols,
    decreases n,
{
    if n > 0 {
        lemma_vcat_len(arguments, (n - 1) as nat, cols);
        let last = arguments[n - 1].1;
        assert(last.wf());
        let before = total_rows(arguments, (n - 1) as nat);
        assert((before + last.rows) * cols == before * cols + last.rows * cols) by (nonlinear_arith);
    } else {
        assert(0 * cols == 0) by (nonlinear_arith);
    }
}

proof fn lemma_total_rows_monotonic(arguments: Seq<(u64, Cursor)>, a: nat, b: nat)
    requires
        a <= b,
    ensures
        total_rows(arguments, a) <= total_rows(arguments, b),
    decreases b,
{
    if a < b {
        lemma_total_rows_monotonic(arguments, a, (b - 1) as nat);
    }
}

/// `table/vertical-concatenate`: the arguments one below another.
/// This works the result out and leaves the writing to the caller.
pub fn table_vertical_concatenate_grid(arguments: &Vec<(u64, ValueIterator)>) -> (r: Result<GridValues, MechErrorKind>)
    requires
        arguments_wf(arguments@),
    ensures
        computed(vcat_result(cursors(arguments@)), r),
{
    let count: usize = arguments.len();
    if count == 0 {
        return Err(MechErrorKind::Unhandled);
    }
    let cols: usize = arguments[0].1.columns;
    let mut agree: bool = true;
    let mut t: usize = 0;
    while t < count
        invariant
            t <= count,
            count == arguments@.len(),
            agree == cols_agree(cursors(arguments@), t as nat, cols as nat),
        decreases count - t,
    {
        assert(cursors(arguments@)[t as int].1 == arguments@[t as int].1@);
        if arguments[t].1.columns != cols {
            agree = false;
        }
        t += 1;
    }
    if !agree {
        return Err(MechErrorKind::DimensionMismatch(dimensions_list(arguments)));
    }
    let mut rows: usize = 0;
    let mut values: Vec<Option<Value>> = Vec::new();
    let mut t: usize = 0;
    while t < count
        invariant
            t <= count,
            count == arguments@.len(),
            count > 0,
            cols == arguments@[0].1.columns,
            arguments_wf(arguments@),
            cols_agree(cursors(arguments@), count as nat, cols as nat),
            rows == total_rows(cursors(arguments@), t as nat),
            rows * cols <= usize::MAX,
            values@ == vcat_values(cursors(arguments@), t as nat),
        decreases count - t,
    {
        let vi: &ValueIterator = &arguments[t].1;
        let taller: Option<usize> = match rows.checked_add(vi.rows) {
            Some(sum) => match sum.checked_mul(cols) {
                Some(_) => Some(sum),
                None => None,
            },
            None => None,
        };
        match taller {
            Some(sum) => {
                rows = sum;
            },
            None => {
                proof {
                    lemma_total_rows_monotonic(cursors(arguments@), (t + 1) as nat, count as nat);
                    let all = total_rows(cursors(arguments@), count as nat) as int;
                    let some = total_rows(cursors(arguments@), (t + 1) as nat) as int;
                    assert(all * cols >= some * cols) by (nonlinear_arith)
                        requires
                            cols >= 0,
                            all >= some,
                            some >= 0,
                    ;
                }
                return Err(MechErrorKind::Unhandled);
            },
        }
        let ghost before = values@;
        let mut k: usize = 0;
        while k < vi.values.len()
            invariant
                k <= vi.values@.len(),
                values@ == before + Seq::new(k as nat, |x: int| Some(vi.values@[x])),
            decreases vi.values@.len() - k,
        {
            values.push(Some(vi.values[k]));
            assert(values@ =~= before + Seq::new((k + 1) as nat, |x: int| Some(vi.values@[x])));
            k += 1;
        }
        t += 1;
    }
    proof {
        lemma_vcat_len(cursors(arguments@), count as nat, cols as nat);
    }
    Ok(GridValues { rows: rows, cols: cols, values, kinds: kinds_of(&arguments[0].1) })
}

/// `table/vertical-concatenate`: the arguments one below another.
pub fn table_vertical_concatenate(arguments: &Vec<(u64, ValueIterator)>, out: &mut Table) -> (r: Result<(), MechErrorKind>)
    requires
        old(out).wf(),
        arguments_wf(arguments@),
    ensures
        final(out).wf(),
        carried_out(vcat_result(cursors(arguments@)), old(out)@, final(out)@, r),
{
    match table_vertical_concatenate_grid(arguments) {
        Ok(grid) => {
            write_grid(out, grid.rows, grid.cols, &grid.values, &grid.kinds);
            Ok(())
        },
        Err(e) => Err(e),
    }
}


/// `compare/greater-than-equal`: whether each cell of one table is at least the cell of another.
pub fn compare_greater_than_equal(arguments: &Vec<(u64, ValueIterator)>, out: &mut Table) -> (r: Result<
    (),
    MechErrorKind,
>)
    requires
        old(out).wf(),
        arguments_wf(arguments@),
    ensures
        final(out).wf(),
        carried_out(
            infix_result(Operator::GreaterThanEqual, cursors(arguments@), old(out)@),
            old(out)@,
            final(out)@,
            r,
        ),
{
    binary_infix(Operator::GreaterThanEqual, arguments, out)
}

/// `compare/greater-than`: whether each cell of one table is above the cell of another.
pub fn compare_greater_than(arguments: &Vec<(u64, ValueIterator)>, out: &mut Table) -> (r: Result<
    (),
    MechErrorKind,
>)
    requires
        old(out).wf(),
        arguments_wf(arguments@),
    ensures
        final(out).wf(),
        carried_out(
            infix_result(Operator::GreaterThan, cursors(arguments@), old(out)@),
            old(out)@,
            final(out)@,
            r,
        ),
{
    binary_infix(Operator::GreaterThan, arguments, out)
}

/// `compare/less-than-equal`: whether each cell of one table is at most the cell of another.
pub fn compare_less_than_equal(arguments: &Vec<(u64, ValueIterator)>, out: &mut Table) -> (r: Result<
    (),
    MechErrorKind,
>)
    requires
        old(out).wf(),
        arguments_wf(arguments@),
    ensures
        final(out).wf(),
        carried_out(
            infix_result(Operator::LessThanEqual, cursors(arguments@), old(out)@),
            old(out)@,
            final(out)@,
            r,
        ),
{
    binary_infix(Operator::LessThanEqual, arguments, out)
}

/// `compare/less-than`: whether each cell of one table is below the cell of another.
pub fn compare_less_than(arguments: &Vec<(u64, ValueIterator)>, out: &mut Table) -> (r: Result<
    (),
    MechErrorKind,
>)
    requires
        old(out).wf(),
        arguments_wf(arguments@),
    ensures
        final(out).wf(),
        carried_out(
            infix_result(Operator::LessThan, cursors(arguments@), old(out)@),
            old(out)@,
            final(out)@,
            r,
        ),
{
    binary_infix(Operator::LessThan, arguments, out)
}

/// `compare/equal`: whether each cell of one table equals the cell of another.
pub fn compare_equal(arguments: &Vec<(u64, ValueIterator)>, out: &mut Table) -> (r: Result<
    (),
    MechErrorKind,
>)
    requires
        old(out).wf(),
        arguments_wf(arguments@),
    ensures
        final(out).wf(),
        carried_out(
            infix_result(Operator::Equal, cursors(arguments@), old(out)@),
            old(out)@,
            final(out)@,
            r,
        ),
{
    binary_infix(Operator::Equal, arguments, out)
}

/// `compare/not-equal`: whether each cell of one table differs from the cell of another.
pub fn compare_not_equal(arguments: &Vec<(u64, ValueIterator)>, out: &mut Table) -> (r: Result<
    (),
    MechErrorKind,
>)
    requires
        old(out).wf(),
        arguments_wf(arguments@),
    ensures
        final(out).wf(),
        carried_out(
            infix_result(Operator::NotEqual, cursors(arguments@), old(out)@),
            old(out)@,
            final(out)@,
            r,
        ),
{
    binary_infix(Operator::NotEqual, arguments, out)
}

/// `logic/and`: whether both cells hold `true`, cell by cell.
pub fn logic_and(arguments: &Vec<(u64, ValueIterator)>, out: &mut Table) -> (r: Result<
    (),
    MechErrorKind,
>)
    requires
        old(out).wf(),
        arguments_wf(arguments@),
    ensures
        final(out).wf(),
        carried_out(
            infix_result(Operator::And, cursors(arguments@), old(out)@),
            old(out)@,
            final(out)@,
            r,
        ),
{
    binary_infix(Operator::And, arguments, out)
}

/// `logic/or`: whether one of the cells holds `true`, cell by cell.
pub fn logic_or(arguments: &Vec<(u64, ValueIterator)>, out: &mut Table) -> (r: Result<
    (),
    MechErrorKind,
>)
    requires
        old(out).wf(),
        arguments_wf(arguments@),
    ensures
        final(out).wf(),
        carried_out(
            infix_result(Operator::Or, cursors(arguments@), old(out)@),
            old(out)@,
            final(out)@,
            r,
        ),
{
    binary_infix(Operator::Or, arguments, out)
}

/// `logic/xor`: whether exactly one of the cells holds `true`, cell by cell.
pub fn logic_xor(arguments: &Vec<(u64, ValueIterator)>, out: &mut Table) -> (r: Result<
    (),
    MechErrorKind,
>)
    requires
        old(out).wf(),
        arguments_wf(arguments@),
    ensures
        final(out).wf(),
        carried_out(
            infix_result(Operator::Xor, cursors(arguments@), old(out)@),
            old(out)@,
            final(out)@,
            r,
        ),
{
    binary_infix(Operator::Xor, arguments, out)
}

/// The table after the first `n` values were written, each into the cell at
/// its position. A position for which there is no value is left alone.
pub open spec fn write_at(
    t: TableModel,
    positions: Seq<(int, int)>,
    values: Seq<Option<Value>>,
    n: nat,
) -> TableModel
    decreases n,
{
    if n == 0 {
        t
    } else {
        let before = write_at(t, positions, values, (n - 1) as nat);
        match values[n - 1] {
            Some(v) => before.write(positions[n - 1].0, positions[n - 1].1, v),
            None => before,
        }
    }
}

/// The value that `table/set` writes into the `k`-th cell of its target,
/// counted from zero.
///
/// - A scalar is written into every cell.
/// - Where the target picks its rows through a table and the input has all
///   of its rows, the input is read at the row of the target cell; likewise
///   for columns. A cell that the input does not have is not written.
/// - Otherwise the cells of the input are written one after another, as far
///   as they go.
pub open spec fn set_value(input: Cursor, target: Cursor, k: int) -> Option<Value> {
    let row_follows = target.row_index is Table && input.row_index is All;
    let col_follows = target.column_index is Table && input.column_index is All;
    if input.is_scalar() {
        Some(input.values[0])
    } else if row_follows || col_follows {
        let i = if row_follows {
            target.positions[k].0 as int
        } else {
            k / (target.columns as int) + 1
        };
        let j = if col_follows {
            target.positions[k].1 as int
        } else {
            k % (target.columns as int) + 1
        };
        if 1 <= i <= input.rows && 1 <= j <= input.columns {
            Some(input.value(i, j))
        } else {
            None
        }
    } else if k < input.values.len() {
        Some(input.values[k])
    } else {
        None
    }
}

/// The values that `table/set` writes, one for each cell of its target.
pub open spec fn set_values(input: Cursor, target: Cursor) -> Seq<Option<Value>> {
    Seq::new(target.positions.len(), |k: int| set_value(input, target, k))
}

proof fn lemma_write_at(t: TableModel, positions: Seq<(int, int)>, values: Seq<Option<Value>>, n: nat)
    requires
        t.wf(),
        n <= positions.len(),
        forall|k: int| 0 <= k < positions.len() ==> t.in_bounds((#[trigger] positions[k]).0, positions[k].1),
    ensures
        write_at(t, positions, values, n).wf(),
        write_at(t, positions, values, n).rows == t.rows,
        write_at(t, positions, values, n).cols() == t.cols(),
    decreases n,
{
    if n > 0 {
        lemma_write_at(t, positions, values, (n - 1) as nat);
        let before = write_at(t, positions, values, (n - 1) as nat);
        let after = write_at(t, positions, values, n);
        assert(t.in_bounds(positions[n - 1].0, positions[n - 1].1));
        assert(before.columns[positions[n - 1].1 - 1].wf());
        assert forall|c: int| 0 <= c < after.columns.len() implies (#[trigger] after.columns[c]).wf()
            && after.columns[c].values.len() == after.rows by {
            assert(before.columns[c].wf());
        }
    }
}

/// `table/set`: writes the argument into the cells of the output table that
/// the target names. The target is a selection of the output table.
pub fn table_set(arguments: &Vec<(u64, ValueIterator)>, out: &mut Table, target: &ValueIterator) -> (r:
    Result<(), MechErrorKind>)
    requires
        old(out).wf(),
        arguments_wf(arguments@),
        target.wf(),
        target.selection().fits(old(out)@.rows, old(out)@.cols()),
    ensures
        final(out).wf(),
        r == (if arguments@.len() > 1 {
            Err::<(), MechErrorKind>(
                MechErrorKind::TooManyInputArguments(arguments@.len() as usize, 1),
            )
        } else if arguments@.len() < 1 {
            Err(MechErrorKind::Unhandled)
        } else {
            Ok(())
        }),
        final(out)@ == (if arguments@.len() == 1 {
            write_at(
                old(out)@,
                target.selection().positions,
                set_values(cursors(arguments@)[0].1, target@),
                target.positions@.len(),
            )
        } else {
            old(out)@
        }),
{
    if arguments.len() > 1 {
        return Err(MechErrorKind::TooManyInputArguments(arguments.len(), 1));
    }
    if arguments.len() < 1 {
        return Err(MechErrorKind::Unhandled);
    }
    let input: &ValueIterator = &arguments[0].1;
    let row_follows: bool = match (target.row_index, input.row_index) {
        (TableIndex::Table(_), TableIndex::All) => true,
        _ => false,
    };
    let col_follows: bool = match (target.column_index, input.column_index) {
        (TableIndex::Table(_), TableIndex::All) => true,
        _ => false,
    };
    let scalar: bool = input.is_scalar();
    let n: usize = target.positions.len();
    let ghost positions = target.selection().positions;
    let ghost values = set_values(input@, target@);
    let mut k: usize = 0;
    assert(1 * 1 == 1) by (nonlinear_arith);
    while k < n
        invariant
            k <= n,
            n == target.positions@.len(),
            target.wf(),
            input.wf(),
            scalar == input.is_scalar(),
            row_follows == (target.row_index is Table && input.row_index is All),
            col_follows == (target.column_index is Table && input.column_index is All),
            positions == target.selection().positions,
            values == set_values(input@, target@),
            target.selection().fits(old(out)@.rows, old(out)@.cols()),
            old(out).wf(),
            out.wf(),
            out.rows == old(out).rows,
            out.cols == old(out).cols,
            out@ == write_at(old(out)@, positions, values, k as nat),
        decreases n - k,
    {
        let (r, c) = target.positions[k];
        assert(1 <= positions[k as int].0 <= old(out)@.rows && 1 <= positions[k as int].1
            <= old(out)@.cols());
        let value: Option<Value> = if scalar {
            Some(input.values[0])
        } else if row_follows || col_follows {
            proof {
                if target.columns == 0 {
                    assert(target.rows * 0 == 0) by (nonlinear_arith);
                }
            }
            let i: usize = if row_follows {
                r
            } else {
                k / target.columns + 1
            };
            let j: usize = if col_follows {
                c
            } else {
                k % target.columns + 1
            };
            match input.get(i, j) {
                Some((v, _)) => Some(v),
                None => None,
            }
        } else if k < input.values.len() {
            Some(input.values[k])
        } else {
            None
        };
        assert(value == values[k as int]);
        match value {
            Some(v) => {
                out.set_unchecked(r, c, v);
            },
            None => {},
        }
        proof {
            lemma_write_at(old(out)@, positions, values, (k + 1) as nat);
        }
        k += 1;
    }
    Ok(())
}

/// The writes by which `table/add-row` appends the cells of `input` below
/// `rows` rows: each cell goes one row further down for each row of the
/// input, into the column that bears the alias of its own column, or into
/// the column at its own position where it has no alias.
pub open spec fn added_cells(input: Cursor, rows: usize) -> Seq<(TableIndex, TableIndex, Value)> {
    Seq::new(
        input.values.len(),
        |k: int|
            (
                TableIndex::Index((rows + k / (input.columns as int) + 1) as usize),
                match input.aliases[k % (input.columns as int)] {
                    Some(alias) => TableIndex::Alias(alias),
                    None => TableIndex::Index((k % (input.columns as int) + 1) as usize),
                },
                input.values[k],
            ),
    )
}

/// The table after `table/add-row`: as many rows more as the input has,
/// and the cells of the input written into them.
pub open spec fn rows_added(t: TableModel, input: Cursor) -> TableModel {
    set_cells(
        t.resize(t.rows + input.rows as nat, t.cols()),
        added_cells(input, t.rows as usize),
        input.values.len(),
    )
}

/// `table/add-row`: appends the rows of the argument to the output table.
/// A table that would have more cells than a machine word can count is left
/// as it is.
pub fn table_add_row(arguments: &Vec<(u64, ValueIterator)>, out: &mut Table) -> (r: Result<
    (),
    MechErrorKind,
>)
    requires
        old(out).wf(),
        arguments_wf(arguments@),
    ensures
        final(out).wf(),
        r == (if arguments@.len() > 1 {
            Err::<(), MechErrorKind>(
                MechErrorKind::TooManyInputArguments(arguments@.len() as usize, 1),
            )
        } else if arguments@.len() < 1 {
            Err(MechErrorKind::Unhandled)
        } else if (old(out).rows + arguments@[0].1.rows) * old(out).cols > usize::MAX || old(
            out,
        ).rows + arguments@[0].1.rows > usize::MAX {
            Err(MechErrorKind::Unhandled)
        } else {
            Ok(())
        }),
        final(out)@ == (if r is Ok {
            rows_added(old(out)@, cursors(arguments@)[0].1)
        } else {
            old(out)@
        }),
        final(out)@.id == old(out)@.id,
{
    if arguments.len() > 1 {
        return Err(MechErrorKind::TooManyInputArguments(arguments.len(), 1));
    }
    if arguments.len() < 1 {
        return Err(MechErrorKind::Unhandled);
    }
    let input: &ValueIterator = &arguments[0].1;
    let base: usize = out.rows;
    let rows: usize = match base.checked_add(input.rows) {
        Some(sum) => match sum.checked_mul(out.cols) {
            Some(_) => sum,
            None => {
                return Err(MechErrorKind::Unhandled);
            },
        },
        None => {
            return Err(MechErrorKind::Unhandled);
        },
    };
    let cols: usize = out.cols;
    out.resize(rows, cols);
    let ghost resized = out@;
    let ghost cells = added_cells(input@, base);
    let n: usize = input.values.len();
    let mut k: usize = 0;
    while k < n
        invariant
            k <= n,
            n == input.values@.len(),
            input.wf(),
            cells == added_cells(input@, base),
            base + input.rows <= usize::MAX,
            out.wf(),
            out@ == set_cells(resized, cells, k as nat),
            out@.id == old(out)@.id,
        decreases n - k,
    {
        proof {
            lemma_linear_position(k as int, input.rows as int, input.columns as int);
        }
        let i: usize = k / input.columns;
        let j: usize = k % input.columns;
        let column: TableIndex = match input.aliases[j] {
            Some(alias) => TableIndex::Alias(alias),
            None => TableIndex::Index(j + 1),
        };
        out.set(&TableIndex::Index(base + i + 1), &column, input.values[k]);
        k += 1;
    }
    Ok(())
}


/// The values that `table/set` writes, one for each cell of its target.
pub fn table_set_values(input: &ValueIterator, target: &ValueIterator) -> (values: Vec<Option<Value>>)
    requires
        input.wf(),
        target.wf(),
    ensures
        values@ == set_values(input@, target@),
{
    let row_follows: bool = match (target.row_index, input.row_index) {
        (TableIndex::Table(_), TableIndex::All) => true,
        _ => false,
    };
    let col_follows: bool = match (target.column_index, input.column_index) {
        (TableIndex::Table(_), TableIndex::All) => true,
        _ => false,
    };
    let scalar: bool = input.is_scalar();
    let n: usize = target.positions.len();
    let mut values: Vec<Option<Value>> = Vec::new();
    let mut k: usize = 0;
    assert(1 * 1 == 1) by (nonlinear_arith);
    while k < n
        invariant
            k <= n,
            n == target.positions@.len(),
            target.wf(),
            input.wf(),
            scalar == input.is_scalar(),
            row_follows == (target.row_index is Table && input.row_index is All),
            col_follows == (target.column_index is Table && input.column_index is All),
            values@.len() == k,
            forall|x: int| 0 <= x < k ==> #[trigger] values@[x] == set_value(input@, target@, x),
        decreases n - k,
    {
        let (r, c) = target.positions[k];
        let value: Option<Value> = if scalar {
            Some(input.values[0])
        } else if row_follows || col_follows {
            proof {
                if target.columns == 0 {
                    assert(target.rows * 0 == 0) by (nonlinear_arith);
                }
            }
            let i: usize = if row_follows {
                r
            } else {
                k / target.columns + 1
            };
            let j: usize = if col_follows {
                c
            } else {
                k % target.columns + 1
            };
            match input.get(i, j) {
                Some((v, _)) => Some(v),
                None => None,
            }
        } else if k < input.values.len() {
            Some(input.values[k])
        } else {
            None
        };
        values.push(value);
        k += 1;
    }
    assert(values@ =~= set_values(input@, target@));
    values
}

/// Writes each value into the cell at its position. A position for which
/// there is no value is left alone.
pub fn write_cells(out: &mut Table, target: &ValueIterator, values: &Vec<Option<Value>>)
    requires
        old(out).wf(),
        target.wf(),
        values@.len() == target.positions@.len(),
        target.selection().fits(old(out)@.rows, old(out)@.cols()),
    ensures
        final(out).wf(),
        final(out)@ == write_at(
            old(out)@,
            target.selection().positions,
            values@,
            target.positions@.len(),
        ),
        final(out)@.id == old(out)@.id,
{
    let n: usize = target.positions.len();
    let ghost positions = target.selection().positions;
    let mut k: usize = 0;
    while k < n
        invariant
            k <= n,
            out@.id == old(out)@.id,
            n == target.positions@.len(),
            values@.len() == n,
            target.wf(),
            positions == target.selection().positions,
            target.selection().fits(old(out)@.rows, old(out)@.cols()),
            old(out).wf(),
            out.wf(),
            out.rows == old(out).rows,
            out.cols == old(out).cols,
            out@ == write_at(old(out)@, positions, values@, k as nat),
        decreases n - k,
    {
        let (r, c) = target.positions[k];
        assert(1 <= positions[k as int].0 <= old(out)@.rows && 1 <= positions[k as int].1
            <= old(out)@.cols());
        match values[k] {
            Some(v) => {
                out.set_unchecked(r, c, v);
            },
            None => {},
        }
        proof {
            lemma_write_at(old(out)@, positions, values@, (k + 1) as nat);
        }
        k += 1;
    }
}

/// The writes by which `table/add-row` appends the cells of `input` below
/// `rows` rows.
pub fn added_cells_of(input: &ValueIterator, rows: usize) -> (cells: Vec<
    (TableIndex, TableIndex, Value),
>)
    requires
        input.wf(),
        rows + input.rows <= usize::MAX,
    ensures
        cells@ == added_cells(input@, rows),
{
    let n: usize = input.values.len();
    let mut cells: Vec<(TableIndex, TableIndex, Value)> = Vec::new();
    let mut k: usize = 0;
    while k < n
        invariant
            k <= n,
            n == input.values@.len(),
            input.wf(),
            rows + input.rows <= usize::MAX,
            cells@.len() == k,
            forall|x: int| 0 <= x < k ==> #[trigger] cells@[x] == added_cells(input@, rows)[x],
        decreases n - k,
    {
        proof {
            lemma_linear_position(k as int, input.rows as int, input.columns as int);
        }
        let i: usize = k / input.columns;
        let j: usize = k % input.columns;
        let column: TableIndex = match input.aliases[j] {
            Some(alias) => TableIndex::Alias(alias),
            None => TableIndex::Index(j + 1),
        };
        cells.push((TableIndex::Index(rows + i + 1), column, input.values[k]));
        k += 1;
    }
    assert(cells@ =~= added_cells(input@, rows));
    cells
}

} // verus!
