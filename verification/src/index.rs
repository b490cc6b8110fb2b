//! Selections: the cells of a table that a pair of selectors names, in the
//! order in which an operator walks them.

use vstd::prelude::*;
use crate::error::{MechErrorKind, TableShape};
use crate::table::{lemma_address_bound, lemma_linear_position, Table, TableId, TableIndex, TableModel};
use crate::value::{Value, ValueKind};

verus! {

/// The cells that a pair of selectors names in a table: their shape, and
/// the position of each, row by row.
#[verifier::ext_equal]
pub struct Selection {
    pub rows: nat,
    pub cols: nat,
    /// The row and the column of each cell in its table, counted from one.
    pub positions: Seq<(int, int)>,
    /// The alias of each column of the selection, where it has one.
    pub aliases: Seq<Option<u64>>,
    /// The kind of each column of the selection.
    pub kinds: Seq<ValueKind>,
}

/// A selection together with what its cells held when it was made: the
/// cursor that operators read their arguments through.
#[derive(Debug)]
pub struct ValueIterator {
    pub scope: TableId,
    pub row_index: TableIndex,
    pub column_index: TableIndex,
    pub rows: usize,
    pub columns: usize,
    /// Whether the table that the cells belong to is dynamic.
    pub dynamic: bool,
    pub positions: Vec<(usize, usize)>,
    pub values: Vec<Value>,
    pub changed: Vec<bool>,
    /// The alias of each column of the selection, where it has one.
    pub aliases: Vec<Option<u64>>,
    /// The kind of each column of the selection. A selection that counts
    /// cells as one sequence may draw from columns of any kind.
    pub kinds: Vec<ValueKind>,
}

/// What a cursor holds, as mathematics sees it.
#[verifier::ext_equal]
pub struct Cursor {
    pub scope: TableId,
    pub row_index: TableIndex,
    pub column_index: TableIndex,
    pub rows: usize,
    pub columns: usize,
    pub dynamic: bool,
    pub positions: Seq<(usize, usize)>,
    pub values: Seq<Value>,
    pub changed: Seq<bool>,
    pub aliases: Seq<Option<u64>>,
    pub kinds: Seq<ValueKind>,
}

impl Cursor {
    /// There is a position, a value and a flag for every cell, and an alias
    /// and a kind for every column.
    pub open spec fn wf(self) -> bool {
        &&& self.rows * self.columns == self.positions.len()
        &&& self.values.len() == self.positions.len()
        &&& self.changed.len() == self.positions.len()
        &&& self.aliases.len() == self.columns
        &&& self.kinds.len() == self.columns
    }

    /// The cells that the cursor stands on.
    pub open spec fn selection(self) -> Selection {
        Selection {
            rows: self.rows as nat,
            cols: self.columns as nat,
            positions: Seq::new(
                self.positions.len(),
                |k: int| (self.positions[k].0 as int, self.positions[k].1 as int),
            ),
            aliases: self.aliases,
            kinds: self.kinds,
        }
    }

    /// Whether the cursor holds what the cells of `t` at its positions hold.
    pub open spec fn reads(self, t: TableModel) -> bool {
        &&& self.dynamic == t.dynamic
        &&& forall|k: int|
            0 <= k < self.positions.len() ==> #[trigger] self.values[k] == t.cell(
                self.positions[k].0 as int,
                self.positions[k].1 as int,
            )
        &&& forall|k: int|
            0 <= k < self.positions.len() ==> #[trigger] self.changed[k] == t.cell_changed(
                self.positions[k].0 as int,
                self.positions[k].1 as int,
            )
    }

    /// The value of the cell in row `i` and column `j` of the selection.
    pub open spec fn value(self, i: int, j: int) -> Value {
        self.values[(i - 1) * self.columns + (j - 1)]
    }

    /// Whether the cell in row `i` and column `j` had changed.
    pub open spec fn value_changed(self, i: int, j: int) -> bool {
        self.changed[(i - 1) * self.columns + (j - 1)]
    }

    /// Whether the selection is of one cell.
    pub open spec fn is_scalar(self) -> bool {
        self.rows == 1 && self.columns == 1
    }

    /// The shape, as operators tell shapes apart.
    pub open spec fn shape(self) -> TableShape {
        if self.dynamic {
            TableShape::Dynamic(self.rows, self.columns)
        } else if self.rows == 1 && self.columns == 1 {
            TableShape::Scalar
        } else if self.columns == 1 {
            TableShape::Column(self.rows)
        } else {
            TableShape::Matrix(self.rows, self.columns)
        }
    }
}

/// The positions that the first `n` keys select on an axis of the given
/// extent: a key that holds `true` selects its own position, a key that
/// holds a whole number selects that position, and keys that hold `false`
/// or nothing select none. A position beyond the extent is out of bounds,
/// zero is never a position, and other keys are not handled.
pub open spec fn key_positions(keys: Seq<Value>, n: nat, extent: nat) -> Result<Seq<int>, MechErrorKind>
    decreases n,
{
    if n == 0 {
        Ok(Seq::empty())
    } else {
        match key_positions(keys, (n - 1) as nat, extent) {
            Err(e) => Err(e),
            Ok(earlier) => {
                let key = keys[n - 1];
                match key {
                    Value::Bool(false) | Value::Empty => Ok(earlier),
                    Value::Bool(true) => if n <= extent {
                        Ok(earlier.push(n as int))
                    } else {
                        Err(MechErrorKind::LinearSubscriptOutOfBounds(n as usize, extent as usize))
                    },
                    _ => match key.spec_as_u64() {
                        None => Err(MechErrorKind::UnhandledFunctionArgumentKind(key.kind())),
                        Some(k) => if k == 0 {
                            Err(MechErrorKind::ZeroIndex)
                        } else if k <= extent {
                            Ok(earlier.push(k as int))
                        } else {
                            Err(
                                MechErrorKind::LinearSubscriptOutOfBounds(
                                    k as usize,
                                    extent as usize,
                                ),
                            )
                        },
                    },
                }
            },
        }
    }
}

/// The positions that a selector names on an axis of the given extent.
///
/// - `All` names every position, in order.
/// - A position names itself; zero is never a position, and one beyond the
///   extent is out of bounds.
/// - An alias names the column that bears it, and fails where none does.
/// - A table names what its cells select, as [`key_positions`] has it.
/// - No selector at all names every position.
pub open spec fn axis_positions(
    scope: TableId,
    selector: TableIndex,
    extent: nat,
    aliases: Seq<Option<u64>>,
    keys: Seq<Value>,
) -> Result<Seq<int>, MechErrorKind> {
    match selector {
        TableIndex::All | TableIndex::Absent => Ok(Seq::new(extent, |i: int| i + 1)),
        TableIndex::Index(k) => if k == 0 {
            Err(MechErrorKind::ZeroIndex)
        } else if k <= extent {
            Ok(seq![k as int])
        } else {
            Err(MechErrorKind::LinearSubscriptOutOfBounds(k, extent as usize))
        },
        TableIndex::Alias(alias) => match crate::table::alias_position(aliases, alias, 0) {
            Some(i) => Ok(seq![i + 1]),
            None => Err(MechErrorKind::MissingColumn(scope, selector)),
        },
        TableIndex::Table(_) => key_positions(keys, keys.len(), extent),
    }
}

/// Whether the selectors count the cells of a table row by row, as one
/// sequence: the column selector is missing or zero, and the row selector
/// names positions.
pub open spec fn is_linear(row: TableIndex, column: TableIndex) -> bool {
    (column is Absent || column == TableIndex::Index(0)) && !(row is All || row is Absent)
}

/// The values of a table, row by row.
pub open spec fn linear_values(t: TableModel) -> Seq<Value> {
    Seq::new(t.rows * t.cols(), |k: int| t.cell(t.linear_row(k + 1), t.linear_col(k + 1)))
}

/// The cells that the selectors name in `t`.
///
/// Where the selectors count the cells as one sequence, the selection is
/// one column of the cells at the positions that the row selector names.
/// Otherwise it is the grid of the rows and the columns that the selectors
/// name, row by row, and its columns bear the aliases of the table's. A
/// selection of more cells than a machine word can count is refused.
pub open spec fn select(
    t: TableModel,
    scope: TableId,
    row: TableIndex,
    column: TableIndex,
    row_keys: Seq<Value>,
    column_keys: Seq<Value>,
) -> Result<Selection, MechErrorKind> {
    if is_linear(row, column) {
        match axis_positions(scope, row, t.rows * t.cols(), Seq::empty(), row_keys) {
            Err(e) => Err(e),
            Ok(cells) => Ok(
                Selection {
                    rows: cells.len(),
                    cols: 1,
                    positions: Seq::new(
                        cells.len(),
                        |i: int| (t.linear_row(cells[i]), t.linear_col(cells[i])),
                    ),
                    aliases: seq![None],
                    kinds: seq![ValueKind::Any],
                },
            ),
        }
    } else {
        match axis_positions(scope, row, t.rows, Seq::empty(), row_keys) {
            Err(e) => Err(e),
            Ok(rows) => match axis_positions(scope, column, t.cols(), t.aliases, column_keys) {
                Err(e) => Err(e),
                Ok(cols) => if rows.len() * cols.len() > usize::MAX {
                    Err(
                        MechErrorKind::UnhandledTableShape(
                            TableShape::Matrix(rows.len() as usize, cols.len() as usize),
                        ),
                    )
                } else {
                    Ok(
                        Selection {
                            rows: rows.len(),
                            cols: cols.len(),
                            positions: Seq::new(
                                rows.len() * cols.len(),
                                |k: int|
                                    (rows[k / (cols.len() as int)], cols[k % (cols.len() as int)]),
                            ),
                            aliases: Seq::new(cols.len(), |j: int| t.aliases[cols[j] - 1]),
                            kinds: Seq::new(cols.len(), |j: int| t.col_kind(cols[j])),
                        },
                    )
                },
            },
        }
    }
}

/// The cursor that stands on the cells of a selection in `t`, with what
/// they hold.
pub open spec fn cursor_of(
    t: TableModel,
    scope: TableId,
    row: TableIndex,
    column: TableIndex,
    selection: Selection,
) -> Cursor {
    Cursor {
        scope,
        row_index: row,
        column_index: column,
        rows: selection.rows as usize,
        columns: selection.cols as usize,
        dynamic: t.dynamic,
        positions: Seq::new(
            selection.positions.len(),
            |k: int| (selection.positions[k].0 as usize, selection.positions[k].1 as usize),
        ),
        values: Seq::new(
            selection.positions.len(),
            |k: int| t.cell(selection.positions[k].0, selection.positions[k].1),
        ),
        changed: Seq::new(
            selection.positions.len(),
            |k: int| t.cell_changed(selection.positions[k].0, selection.positions[k].1),
        ),
        aliases: selection.aliases,
        kinds: selection.kinds,
    }
}

impl Selection {
    /// The position of the cell in row `i` and column `j` of the selection.
    pub open spec fn at(self, i: int, j: int) -> (int, int) {
        self.positions[(i - 1) * self.cols + (j - 1)]
    }

    /// Every position lies within a table of the given shape, and there are
    /// as many as the selection's shape says.
    pub open spec fn fits(self, rows: nat, cols: nat) -> bool {
        &&& self.positions.len() == self.rows * self.cols
        &&& forall|k: int|
            0 <= k < self.positions.len() ==> 1 <= (#[trigger] self.positions[k]).0 <= rows && 1
                <= self.positions[k].1 <= cols
    }
}

impl View for ValueIterator {
    type V = Cursor;

    open spec fn view(&self) -> Cursor {
        Cursor {
            scope: self.scope,
            row_index: self.row_index,
            column_index: self.column_index,
            rows: self.rows,
            columns: self.columns,
            dynamic: self.dynamic,
            positions: self.positions@,
            values: self.values@,
            changed: self.changed@,
            aliases: self.aliases@,
            kinds: self.kinds@,
        }
    }
}

impl ValueIterator {
    /// The selection that the cursor walks.
    pub open spec fn selection(&self) -> Selection {
        self@.selection()
    }

    /// The cursor holds a value, a flag and a position for every cell of its
    /// selection, and a kind for every column.
    pub open spec fn wf(&self) -> bool {
        self@.wf()
    }

    /// Whether the cursor holds what the cells of `t` at its positions hold.
    pub open spec fn reads(&self, t: TableModel) -> bool {
        self@.reads(t)
    }

    /// The value of the cell in row `i` and column `j` of the selection.
    pub open spec fn value(&self, i: int, j: int) -> Value {
        self@.value(i, j)
    }

    /// Whether the cell in row `i` and column `j` had changed.
    pub open spec fn value_changed(&self, i: int, j: int) -> bool {
        self@.value_changed(i, j)
    }

    /// Whether the cursor is over one cell.
    pub open spec fn spec_is_scalar(&self) -> bool {
        self@.is_scalar()
    }

    /// The shape of the selection, as the operators tell shapes apart.
    pub open spec fn spec_shape(&self) -> TableShape {
        self@.shape()
    }

    /// The number of rows selected.
    pub fn rows(&self) -> (n: usize)
        ensures
            n == self.rows,
    {
        self.rows
    }

    /// The number of columns selected.
    pub fn columns(&self) -> (n: usize)
        ensures
            n == self.columns,
    {
        self.columns
    }

    /// The number of cells.
    pub fn len(&self) -> (n: usize)
        requires
            self.wf(),
        ensures
            n == self.rows * self.columns,
    {
        self.values.len()
    }

    /// Whether the cursor is over one cell.
    #[verifier::when_used_as_spec(spec_is_scalar)]
    pub fn is_scalar(&self) -> (b: bool)
        ensures
            b == self.spec_is_scalar(),
    {
        self.rows == 1 && self.columns == 1
    }

    /// The shape of the selection, as the operators tell shapes apart.
    #[verifier::when_used_as_spec(spec_shape)]
    pub fn shape(&self) -> (s: TableShape)
        ensures
            s == self.spec_shape(),
    {
        if self.dynamic {
            TableShape::Dynamic(self.rows, self.columns)
        } else if self.rows == 1 && self.columns == 1 {
            TableShape::Scalar
        } else if self.columns == 1 {
            TableShape::Column(self.rows)
        } else {
            TableShape::Matrix(self.rows, self.columns)
        }
    }

    /// The value and the flag of the cell in row `i` and column `j`.
    pub fn get_unchecked(&self, i: usize, j: usize) -> (r: (Value, bool))
        requires
            self.wf(),
            1 <= i <= self.rows,
            1 <= j <= self.columns,
        ensures
            r == (self.value(i as int, j as int), self.value_changed(i as int, j as int)),
    {
        let n: usize = self.positions.len();
        proof {
            lemma_address_bound(i as int, j as int, self.rows as int, self.columns as int);
            assert(0 <= (i - 1) * self.columns <= n) by (nonlinear_arith)
                requires
                    1 <= i <= self.rows,
                    n == self.rows * self.columns,
            ;
        }
        let k: usize = (i - 1) * self.columns + (j - 1);
        (self.values[k], self.changed[k])
    }

    /// The value and the flag of the cell in row `i` and column `j`, or
    /// nothing where the selection has no such cell.
    pub fn get(&self, i: usize, j: usize) -> (r: Option<(Value, bool)>)
        requires
            self.wf(),
        ensures
            r == (if 1 <= i <= self.rows && 1 <= j <= self.columns {
                Some((self.value(i as int, j as int), self.value_changed(i as int, j as int)))
            } else {
                None
            }),
    {
        if 1 <= i && i <= self.rows && 1 <= j && j <= self.columns {
            Some(self.get_unchecked(i, j))
        } else {
            None
        }
    }

    /// The alias of the selected column at `j`, as a selector.
    pub fn get_column_alias(&self, j: usize) -> (alias: Option<TableIndex>)
        ensures
            alias == (if 1 <= j <= self.aliases@.len() && self.aliases@[j - 1] is Some {
                Some(TableIndex::Alias(self.aliases@[j - 1]->0))
            } else {
                None
            }),
    {
        if 1 <= j && j <= self.aliases.len() {
            match self.aliases[j - 1] {
                Some(a) => Some(TableIndex::Alias(a)),
                None => None,
            }
        } else {
            None
        }
    }
}

/// The values of a table, row by row.
pub fn table_values(t: &Table) -> (values: Vec<Value>)
    requires
        t.wf(),
    ensures
        values@ == linear_values(t@),
{
    let n: usize = t.rows * t.cols;
    let mut values: Vec<Value> = Vec::new();
    let mut k: usize = 0;
    while k < n
        invariant
            k <= n,
            n == t.rows * t.cols,
            t.wf(),
            values@.len() == k,
            forall|i: int| 0 <= i < k ==> #[trigger] values@[i] == linear_values(t@)[i],
        decreases n - k,
    {
        let (value, _) = t.get_unchecked_linear(k + 1);
        values.push(value);
        k += 1;
    }
    assert(values@ =~= linear_values(t@));
    values
}

/// The positions that the keys select on an axis of the given extent.
fn resolve_keys(keys: &Vec<Value>, extent: usize) -> (r: Result<Vec<usize>, MechErrorKind>)
    ensures
        match r {
            Ok(positions) => key_positions(keys@, keys@.len(), extent as nat) == Ok::<
                Seq<int>,
                MechErrorKind,
            >(positions@.map_values(|p: usize| p as int)) && forall|i: int|
                0 <= i < positions@.len() ==> 1 <= #[trigger] positions@[i] <= extent,
            Err(e) => key_positions(keys@, keys@.len(), extent as nat) == Err::<
                Seq<int>,
                MechErrorKind,
            >(e),
        },
{
    let mut positions: Vec<usize> = Vec::new();
    let mut n: usize = 0;
    assert(positions@.map_values(|p: usize| p as int) =~= Seq::<int>::empty());
    while n < keys.len()
        invariant
            n <= keys@.len(),
            key_positions(keys@, n as nat, extent as nat) == Ok::<Seq<int>, MechErrorKind>(
                positions@.map_values(|p: usize| p as int),
            ),
            forall|i: int| 0 <= i < positions@.len() ==> 1 <= #[trigger] positions@[i] <= extent,
        decreases keys@.len() - n,
    {
        let key: Value = keys[n];
        let ghost earlier = positions@.map_values(|p: usize| p as int);
        let picked: Option<usize> = match key {
            Value::Bool(false) | Value::Empty => None,
            Value::Bool(true) => {
                if n + 1 <= extent {
                    Some(n + 1)
                } else {
                    proof {
                        lemma_keys_stop(keys@, (n + 1) as nat, keys@.len(), extent as nat);
                    }
                    return Err(MechErrorKind::LinearSubscriptOutOfBounds(n + 1, extent));
                }
            },
            _ => match key.as_u64() {
                None => {
                    proof {
                        lemma_keys_stop(keys@, (n + 1) as nat, keys@.len(), extent as nat);
                    }
                    return Err(MechErrorKind::UnhandledFunctionArgumentKind(key.kind()));
                },
                Some(k) => {
                    if k == 0 {
                        proof {
                            lemma_keys_stop(keys@, (n + 1) as nat, keys@.len(), extent as nat);
                        }
                        return Err(MechErrorKind::ZeroIndex);
                    } else if k <= extent as u64 {
                        Some(k as usize)
                    } else {
                        proof {
                            lemma_keys_stop(keys@, (n + 1) as nat, keys@.len(), extent as nat);
                        }
                        return Err(MechErrorKind::LinearSubscriptOutOfBounds(k as usize, extent));
                    }
                },
            },
        };
        match picked {
            Some(p) => {
                positions.push(p);
                assert(positions@.map_values(|p: usize| p as int) =~= earlier.push(p as int));
            },
            None => {},
        }
        n += 1;
    }
    Ok(positions)
}

/// Once a key has failed, the keys that follow do nothing.
proof fn lemma_keys_stop(keys: Seq<Value>, failed: nat, n: nat, extent: nat)
    requires
        failed <= n,
        key_positions(keys, failed, extent) is Err,
    ensures
        key_positions(keys, n, extent) == key_positions(keys, failed, extent),
    decreases n,
{
    if failed < n {
        lemma_keys_stop(keys, failed, (n - 1) as nat, extent);
    }
}

/// The positions that a selector names on an axis of the given extent.
fn resolve_axis(
    scope: TableId,
    selector: &TableIndex,
    extent: usize,
    aliases: &Vec<Option<u64>>,
    keys: &Vec<Value>,
) -> (r: Result<Vec<usize>, MechErrorKind>)
    requires
        aliases@.len() <= extent,
    ensures
        match r {
            Ok(positions) => axis_positions(scope, *selector, extent as nat, aliases@, keys@)
                == Ok::<Seq<int>, MechErrorKind>(positions@.map_values(|p: usize| p as int))
                && forall|i: int|
                0 <= i < positions@.len() ==> 1 <= #[trigger] positions@[i] <= extent,
            Err(e) => axis_positions(scope, *selector, extent as nat, aliases@, keys@) == Err::<
                Seq<int>,
                MechErrorKind,
            >(e),
        },
{
    match selector {
        TableIndex::All | TableIndex::Absent => {
            let mut positions: Vec<usize> = Vec::new();
            let mut i: usize = 0;
            while i < extent
                invariant
                    i <= extent,
                    positions@.len() == i,
                    forall|j: int| 0 <= j < i ==> #[trigger] positions@[j] == j + 1,
                decreases extent - i,
            {
                positions.push(i + 1);
                i += 1;
            }
            assert(positions@.map_values(|p: usize| p as int) =~= Seq::new(
                extent as nat,
                |i: int| i + 1,
            ));
            Ok(positions)
        },
        TableIndex::Index(k) => {
            if *k == 0 {
                Err(MechErrorKind::ZeroIndex)
            } else if *k <= extent {
                let mut positions: Vec<usize> = Vec::new();
                positions.push(*k);
                assert(positions@.map_values(|p: usize| p as int) =~= seq![*k as int]);
                Ok(positions)
            } else {
                Err(MechErrorKind::LinearSubscriptOutOfBounds(*k, extent))
            }
        },
        TableIndex::Alias(alias) => {
            let mut i: usize = 0;
            proof {
                crate::table::lemma_alias_position(aliases@, *alias, 0);
            }
            while i < aliases.len()
                invariant
                    i <= aliases@.len(),
                    aliases@.len() <= extent,
                    *selector == TableIndex::Alias(*alias),
                    crate::table::alias_position(aliases@, *alias, 0)
                        == crate::table::alias_position(aliases@, *alias, i as int),
                decreases aliases@.len() - i,
            {
                match aliases[i] {
                    Some(a) => {
                        if a == *alias {
                            assert(crate::table::alias_position(aliases@, *alias, i as int) == Some(
                                i as int,
                            ));
                            let mut positions: Vec<usize> = Vec::new();
                            positions.push(i + 1);
                            assert(positions@.map_values(|p: usize| p as int) =~= seq![i + 1]);
                            return Ok(positions);
                        }
                    },
                    None => {},
                }
                i += 1;
            }
            Err(MechErrorKind::MissingColumn(scope, *selector))
        },
        TableIndex::Table(_) => resolve_keys(keys, extent),
    }
}


proof fn lemma_grid_position(i: int, j: int, cols: int)
    requires
        0 <= i,
        0 <= j < cols,
    ensures
        (i * cols + j) / cols == i,
        (i * cols + j) % cols == j,
{
    vstd::arithmetic::div_mod::lemma_fundamental_div_mod_converse(i * cols + j, cols, i, j);
}

/// The selection that a pair of selectors makes in a table, with what its
/// cells hold. `row_keys` and `column_keys` are the values of the tables
/// that the selectors name, where they name one.
pub fn resolve_subscript(
    table: &Table,
    scope: TableId,
    row: TableIndex,
    column: TableIndex,
    row_keys: &Vec<Value>,
    column_keys: &Vec<Value>,
) -> (r: Result<ValueIterator, MechErrorKind>)
    requires
        table.wf(),
    ensures
        match r {
            Ok(vi) => {
                &&& select(table@, scope, row, column, row_keys@, column_keys@) == Ok::<
                    Selection,
                    MechErrorKind,
                >(vi.selection())
                &&& vi.wf()
                &&& vi.reads(table@)
                &&& vi.selection().fits(table@.rows, table@.cols())
                &&& vi.scope == scope
                &&& vi.row_index == row
                &&& vi.column_index == column
                &&& vi@ == cursor_of(table@, scope, row, column, vi.selection())
            },
            Err(e) => select(table@, scope, row, column, row_keys@, column_keys@) == Err::<
                Selection,
                MechErrorKind,
            >(e),
        },
{
    let linear: bool = match column {
        TableIndex::Absent => true,
        TableIndex::Index(c) => c == 0,
        _ => false,
    } && match row {
        TableIndex::All | TableIndex::Absent => false,
        _ => true,
    };
    let mut positions: Vec<(usize, usize)> = Vec::new();
    let mut values: Vec<Value> = Vec::new();
    let mut changed: Vec<bool> = Vec::new();
    let mut aliases: Vec<Option<u64>> = Vec::new();
    let mut kinds: Vec<ValueKind> = Vec::new();
    let no_aliases: Vec<Option<u64>> = Vec::new();
    if linear {
        let cells: Vec<usize> = match resolve_axis(
            scope,
            &row,
            table.rows * table.cols,
            &no_aliases,
            row_keys,
        ) {
            Ok(cells) => cells,
            Err(e) => {
                return Err(e);
            },
        };
        let ghost axis = cells@.map_values(|p: usize| p as int);
        let mut i: usize = 0;
        while i < cells.len()
            invariant
                i <= cells@.len(),
                table.wf(),
                axis == cells@.map_values(|p: usize| p as int),
                forall|k: int| 0 <= k < cells@.len() ==> 1 <= #[trigger] cells@[k] <= table.rows * table.cols,
                positions@.len() == i,
                values@.len() == i,
                changed@.len() == i,
                forall|k: int|
                    0 <= k < i ==> (#[trigger] positions@[k]).0 == table@.linear_row(axis[k])
                        && positions@[k].1 == table@.linear_col(axis[k])
                        && table@.in_bounds(positions@[k].0 as int, positions@[k].1 as int),
                forall|k: int|
                    0 <= k < i ==> #[trigger] values@[k] == table@.cell(
                        positions@[k].0 as int,
                        positions@[k].1 as int,
                    ),
                forall|k: int|
                    0 <= k < i ==> #[trigger] changed@[k] == table@.cell_changed(
                        positions@[k].0 as int,
                        positions@[k].1 as int,
                    ),
            decreases cells@.len() - i,
        {
            let cell: usize = cells[i];
            proof {
                lemma_linear_position(cell - 1, table.rows as int, table.cols as int);
            }
            let r: usize = (cell - 1) / table.cols + 1;
            let c: usize = (cell - 1) % table.cols + 1;
            let (value, flag) = table.get_unchecked(r, c);
            positions.push((r, c));
            values.push(value);
            changed.push(flag);
            i += 1;
        }
        aliases.push(None);
        kinds.push(ValueKind::Any);
        let vi = ValueIterator {
            scope,
            row_index: row,
            column_index: column,
            rows: cells.len(),
            columns: 1,
            dynamic: table.dynamic,
            positions,
            values,
            changed,
            aliases,
            kinds,
        };
        proof {
            let expected = select(table@, scope, row, column, row_keys@, column_keys@)->Ok_0;
            assert(vi.selection().positions =~= expected.positions);
            assert(vi.selection().aliases =~= expected.aliases);
            assert(vi.selection().kinds =~= expected.kinds);
            assert(vi.selection() =~= expected);
            let c = cursor_of(table@, scope, row, column, vi.selection());
            assert(vi@.positions =~= c.positions);
            assert(vi@.values =~= c.values);
            assert(vi@.changed =~= c.changed);
            assert(vi@ =~= c);
        }
        Ok(vi)
    } else {
        let rows: Vec<usize> = match resolve_axis(scope, &row, table.rows, &no_aliases, row_keys) {
            Ok(rows) => rows,
            Err(e) => {
                return Err(e);
            },
        };
        let cols: Vec<usize> = match resolve_axis(
            scope,
            &column,
            table.cols,
            &table.aliases,
            column_keys,
        ) {
            Ok(cols) => cols,
            Err(e) => {
                return Err(e);
            },
        };
        let nr: usize = rows.len();
        let nc: usize = cols.len();
        match nr.checked_mul(nc) {
            Some(_) => {},
            None => {
                return Err(MechErrorKind::UnhandledTableShape(TableShape::Matrix(nr, nc)));
            },
        }
        let ghost row_axis = rows@.map_values(|p: usize| p as int);
        let ghost col_axis = cols@.map_values(|p: usize| p as int);
        let mut i: usize = 0;
        while i < nr
            invariant
                i <= nr,
                nr == rows@.len(),
                nc == cols@.len(),
                nr * nc <= usize::MAX,
                table.wf(),
                forall|k: int| 0 <= k < nr ==> 1 <= #[trigger] rows@[k] <= table.rows,
                forall|k: int| 0 <= k < nc ==> 1 <= #[trigger] cols@[k] <= table.cols,
                positions@.len() == i * nc,
                values@.len() == i * nc,
                changed@.len() == i * nc,
                forall|k: int|
                    0 <= k < i * nc ==> (#[trigger] positions@[k]).0 == rows@[k / (nc as int)]
                        && positions@[k].1 == cols@[k % (nc as int)],
                forall|k: int|
                    0 <= k < i * nc ==> #[trigger] values@[k] == table@.cell(
                        positions@[k].0 as int,
                        positions@[k].1 as int,
                    ),
                forall|k: int|
                    0 <= k < i * nc ==> #[trigger] changed@[k] == table@.cell_changed(
                        positions@[k].0 as int,
                        positions@[k].1 as int,
                    ),
            decreases nr - i,
        {
            let mut j: usize = 0;
            assert(i * nc + nc <= nr * nc) by (nonlinear_arith)
                requires
                    i < nr,
            ;
            while j < nc
                invariant
                    i < nr,
                    j <= nc,
                    nr == rows@.len(),
                    nc == cols@.len(),
                    i * nc + nc <= nr * nc,
                    nr * nc <= usize::MAX,
                    table.wf(),
                    forall|k: int| 0 <= k < nr ==> 1 <= #[trigger] rows@[k] <= table.rows,
                    forall|k: int| 0 <= k < nc ==> 1 <= #[trigger] cols@[k] <= table.cols,
                    positions@.len() == i * nc + j,
                    values@.len() == i * nc + j,
                    changed@.len() == i * nc + j,
                    forall|k: int|
                        0 <= k < i * nc + j ==> (#[trigger] positions@[k]).0 == rows@[k / (
                        nc as int)] && positions@[k].1 == cols@[k % (nc as int)],
                    forall|k: int|
                        0 <= k < i * nc + j ==> #[trigger] values@[k] == table@.cell(
                            positions@[k].0 as int,
                            positions@[k].1 as int,
                        ),
                    forall|k: int|
                        0 <= k < i * nc + j ==> #[trigger] changed@[k] == table@.cell_changed(
                            positions@[k].0 as int,
                            positions@[k].1 as int,
                        ),
                decreases nc - j,
            {
                let r: usize = rows[i];
                let c: usize = cols[j];
                let (value, flag) = table.get_unchecked(r, c);
                proof {
                    lemma_grid_position(i as int, j as int, nc as int);
                }
                positions.push((r, c));
                values.push(value);
                changed.push(flag);
                j += 1;
            }
            assert(i * nc + nc == (i + 1) * nc) by (nonlinear_arith);
            i += 1;
        }
        let mut j: usize = 0;
        while j < nc
            invariant
                j <= nc,
                nc == cols@.len(),
                table.wf(),
                forall|k: int| 0 <= k < nc ==> 1 <= #[trigger] cols@[k] <= table.cols,
                aliases@.len() == j,
                kinds@.len() == j,
                forall|k: int| 0 <= k < j ==> #[trigger] aliases@[k] == table.aliases@[cols@[k] - 1],
                forall|k: int| 0 <= k < j ==> #[trigger] kinds@[k] == table@.col_kind(cols@[k] as int),
            decreases nc - j,
        {
            aliases.push(table.aliases[cols[j] - 1]);
            kinds.push(table.columns[cols[j] - 1].kind);
            j += 1;
        }
        let vi = ValueIterator {
            scope,
            row_index: row,
            column_index: column,
            rows: nr,
            columns: nc,
            dynamic: table.dynamic,
            positions,
            values,
            changed,
            aliases,
            kinds,
        };
        proof {
            let expected = select(table@, scope, row, column, row_keys@, column_keys@)->Ok_0;
            assert(expected.positions.len() == nr * nc);
            assert forall|k: int| 0 <= k < nr * nc implies #[trigger] vi.selection().positions[k]
                == expected.positions[k] && 1 <= vi.selection().positions[k].0 <= table@.rows && 1
                <= vi.selection().positions[k].1 <= table@.cols() by {
                lemma_linear_position(k, nr as int, nc as int);
                assert(row_axis[k / (nc as int)] == rows@[k / (nc as int)]);
                assert(col_axis[k % (nc as int)] == cols@[k % (nc as int)]);
            }
            assert(vi.selection().positions =~= expected.positions);
            assert(vi.selection().aliases =~= expected.aliases);
            assert(vi.selection().kinds =~= expected.kinds);
            assert(vi.selection() =~= expected);
            let c = cursor_of(table@, scope, row, column, vi.selection());
            assert(vi@.positions =~= c.positions);
            assert(vi@.values =~= c.values);
            assert(vi@.changed =~= c.changed);
            assert(vi@ =~= c);
        }
        Ok(vi)
    }
}

} // verus!
