//! Tables: typed columns of values, addressed by row and column.

use vstd::prelude::*;
use crate::hash::{hash_str, spec_hash_chars};
use crate::column::{Column, ColumnModel};
use crate::error::MechErrorKind;
use crate::quantities::Quantity;
use crate::value::{Value, ValueKind};

verus! {

/// The id of a table, and whether the table belongs to one block or to the
/// database.
#[derive(Clone, Copy, Debug, PartialEq, Eq, Structural, Hash)]
pub enum TableId {
    Local(u64),
    Global(u64),
}

impl TableId {
    /// The id itself, whichever scope it is in.
    pub open spec fn spec_unwrap(&self) -> u64 {
        match self {
            TableId::Local(id) => *id,
            TableId::Global(id) => *id,
        }
    }

    /// The number of the id, whether local or global.
    pub fn unwrap(&self) -> (id: &u64)
        ensures
            *id == self.spec_unwrap(),
    {
        match self {
            TableId::Local(id) => id,
            TableId::Global(id) => id,
        }
    }
}

/// A selector of rows or of columns.
#[derive(Clone, Copy, Debug, PartialEq, Eq, Structural, Hash)]
pub enum TableIndex {
    /// The row or column at this position, counted from one.
    Index(usize),
    /// The column that bears this alias.
    Alias(u64),
    /// The positions that the cells of this table hold.
    Table(TableId),
    /// Every position.
    All,
    /// No selector on this axis.
    Absent,
}

impl TableIndex {
    /// The number that a selector carries: its position, alias or table id,
    /// and zero where it carries none.
    pub open spec fn spec_unwrap(&self) -> usize {
        match self {
            TableIndex::Index(ix) => *ix,
            TableIndex::Alias(alias) => *alias as usize,
            TableIndex::Table(table_id) => table_id.spec_unwrap() as usize,
            TableIndex::Absent | TableIndex::All => 0,
        }
    }

    /// The number that the selector holds: the index, the alias hash or the
    /// table's id, and zero for `All` and `Absent`.
    #[verifier::when_used_as_spec(spec_unwrap)]
    pub fn unwrap(&self) -> (ix: usize)
        ensures
            ix == self.spec_unwrap(),
    {
        match self {
            TableIndex::Index(ix) => *ix,
            TableIndex::Alias(alias) => *alias as usize,
            TableIndex::Table(table_id) => *table_id.unwrap() as usize,
            TableIndex::Absent | TableIndex::All => 0,
        }
    }
}


/// A table: `rows` by `cols` cells, stored as one column after another.
///
/// Rows and columns are counted from one. A column may bear an alias; no two
/// columns bear the same. A dynamic table grows when a cell beyond its shape
/// is written.
#[derive(Debug)]
pub struct Table {
    pub id: u64,
    pub rows: usize,
    pub cols: usize,
    pub dynamic: bool,
    pub columns: Vec<Column>,
    pub aliases: Vec<Option<u64>>,
    /// The texts that the table knows by their hashes, in the order in
    /// which they came; of two texts with one hash the later is found.
    pub strings: Vec<(u64, String)>,
}

/// The texts by their hashes: of two entries with one hash the later counts.
pub open spec fn dictionary(entries: Seq<(u64, String)>) -> Map<u64, Seq<char>>
    decreases entries.len(),
{
    if entries.len() == 0 {
        Map::empty()
    } else {
        dictionary(entries.drop_last()).insert(entries.last().0, entries.last().1@)
    }
}

/// What a table holds, as mathematics sees it.
#[verifier::ext_equal]
pub struct TableModel {
    pub id: u64,
    pub dynamic: bool,
    pub rows: nat,
    pub columns: Seq<ColumnModel>,
    pub aliases: Seq<Option<u64>>,
    /// The texts that the table knows, by their hashes.
    pub strings: Map<u64, Seq<char>>,
}

/// The position of the first column from `from` on that bears `alias`,
/// counted from zero.
pub open spec fn alias_position(aliases: Seq<Option<u64>>, alias: u64, from: int) -> Option<int>
    decreases aliases.len() - from,
{
    if from < 0 || from >= aliases.len() {
        None
    } else if aliases[from] == Some(alias) {
        Some(from)
    } else {
        alias_position(aliases, alias, from + 1)
    }
}

/// The position that an alias is found at lies within the aliases and holds
/// that alias.
pub proof fn lemma_alias_position(aliases: Seq<Option<u64>>, alias: u64, from: int)
    requires
        0 <= from,
    ensures
        match alias_position(aliases, alias, from) {
            Some(i) => from <= i < aliases.len() && aliases[i] == Some(alias),
            None => forall|i: int| from <= i < aliases.len() ==> aliases[i] != Some(alias),
        },
    decreases aliases.len() - from,
{
    if from < aliases.len() && aliases[from] != Some(alias) {
        lemma_alias_position(aliases, alias, from + 1);
    }
}

/// A cell within `rows` by `cols` has its linear address below their product.
pub proof fn lemma_address_bound(row: int, col: int, rows: int, cols: int)
    requires
        1 <= row <= rows,
        1 <= col <= cols,
    ensures
        0 <= (row - 1) * cols + (col - 1) < rows * cols,
        cols <= rows * cols,
        rows <= rows * cols,
{
    assert((row - 1) * cols + cols <= rows * cols && (row - 1) * cols >= 0 && cols <= rows * cols
        && rows <= rows * cols) by (nonlinear_arith)
        requires
            1 <= row <= rows,
            1 <= cols,
    ;
}

/// A linear address below the product of `rows` and `cols` names a cell
/// within them.
pub proof fn lemma_linear_position(k: int, rows: int, cols: int)
    requires
        0 <= k < rows * cols,
        0 <= cols,
    ensures
        0 < cols,
        0 <= k / cols < rows,
        0 <= k % cols < cols,
        (k / cols) * cols + k % cols == k,
{
    if cols == 0 {
        assert(rows * 0 == 0) by (nonlinear_arith);
    }
    vstd::arithmetic::div_mod::lemma_fundamental_div_mod(k, cols);
    vstd::arithmetic::div_mod::lemma_mod_pos_bound(k, cols);
    let q = k / cols;
    assert(cols * q == q * cols) by (nonlinear_arith);
    assert(0 <= q < rows) by (nonlinear_arith)
        requires
            q * cols + k % cols == k,
            0 <= k % cols < cols,
            0 <= k < rows * cols,
    ;
}

/// The cell at `row` and `col` is the one that its linear address names.
pub proof fn lemma_address_position(row: int, col: int, cols: int)
    requires
        1 <= row,
        1 <= col <= cols,
    ensures
        ((row - 1) * cols + (col - 1)) / cols == row - 1,
        ((row - 1) * cols + (col - 1)) % cols == col - 1,
{
    vstd::arithmetic::div_mod::lemma_fundamental_div_mod_converse(
        (row - 1) * cols + (col - 1),
        cols,
        row - 1,
        col - 1,
    );
}

impl TableModel {
    /// The number of columns.
    pub open spec fn cols(self) -> nat {
        self.columns.len()
    }

    /// Every column is well formed and as long as the table has rows, every
    /// column has its place for an alias, and no alias is borne twice.
    pub open spec fn wf(self) -> bool {
        &&& self.aliases.len() == self.columns.len()
        &&& forall|c: int|
            0 <= c < self.columns.len() ==> (#[trigger] self.columns[c]).wf()
                && self.columns[c].values.len() == self.rows
        &&& forall|i: int, j: int|
            0 <= i < self.aliases.len() && 0 <= j < self.aliases.len() && i != j
                && self.aliases[i] is Some ==> self.aliases[i] != self.aliases[j]
    }

    /// Whether the cell at `row` and `col`, counted from one, exists.
    pub open spec fn in_bounds(self, row: int, col: int) -> bool {
        1 <= row <= self.rows && 1 <= col <= self.cols()
    }

    /// The value of the cell at `row` and `col`.
    pub open spec fn cell(self, row: int, col: int) -> Value {
        self.columns[col - 1].values[row - 1]
    }

    /// Whether the cell at `row` and `col` changed since the last reset.
    pub open spec fn cell_changed(self, row: int, col: int) -> bool {
        self.columns[col - 1].changed[row - 1]
    }

    /// The kind of the column at `col`.
    pub open spec fn col_kind(self, col: int) -> ValueKind {
        self.columns[col - 1].kind
    }

    /// Whether both tables have the same shape and hold the same values.
    pub open spec fn same_data(self, other: TableModel) -> bool {
        &&& self.rows == other.rows
        &&& self.cols() == other.cols()
        &&& forall|row: int, col: int|
            self.in_bounds(row, col) ==> #[trigger] self.cell(row, col) == other.cell(row, col)
    }

    /// Whether no cell is marked as changed.
    pub open spec fn unchanged(self) -> bool {
        forall|row: int, col: int| self.in_bounds(row, col) ==> !#[trigger] self.cell_changed(row, col)
    }

    /// The column that bears `alias`, counted from one.
    pub open spec fn column_of_alias(self, alias: u64) -> Option<int> {
        match alias_position(self.aliases, alias, 0) {
            Some(i) => Some(i + 1),
            None => None,
        }
    }

    /// The row of the `k`-th cell, counted row by row from one.
    pub open spec fn linear_row(self, k: int) -> int {
        (k - 1) / (self.cols() as int) + 1
    }

    /// The column of the `k`-th cell, counted row by row from one.
    pub open spec fn linear_col(self, k: int) -> int {
        (k - 1) % (self.cols() as int) + 1
    }

    /// The cell that a pair of selectors names, as (row, column).
    ///
    /// - A row position with a column position names that cell.
    /// - A row position with the column position zero counts the cells row by
    ///   row: position `k` is the `k`-th cell of the table.
    /// - A row position with an alias names the cell in the column that bears
    ///   the alias.
    /// - Anything else names no single cell.
    pub open spec fn position(self, row: TableIndex, column: TableIndex) -> Option<(int, int)> {
        match (row, column) {
            (TableIndex::Index(r), TableIndex::Index(c)) => {
                if c == 0 {
                    if 1 <= r <= self.rows * self.cols() {
                        Some((self.linear_row(r as int), self.linear_col(r as int)))
                    } else {
                        None
                    }
                } else if self.in_bounds(r as int, c as int) {
                    Some((r as int, c as int))
                } else {
                    None
                }
            },
            (TableIndex::Index(r), TableIndex::Alias(alias)) => {
                match self.column_of_alias(alias) {
                    Some(c) => if 1 <= r <= self.rows {
                        Some((r as int, c))
                    } else {
                        None
                    },
                    None => None,
                }
            },
            _ => None,
        }
    }

    /// The linear address of the cell that a pair of selectors names: cells
    /// are counted row by row, from zero.
    pub open spec fn index(self, row: TableIndex, column: TableIndex) -> Option<usize> {
        match self.position(row, column) {
            Some((r, c)) => Some(((r - 1) * self.cols() + (c - 1)) as usize),
            None => None,
        }
    }

    /// What reading the cell that the selectors name gives: its value and its
    /// flag, or nothing where they name no cell.
    pub open spec fn get(self, row: TableIndex, column: TableIndex) -> Option<(Value, bool)> {
        match self.position(row, column) {
            Some((r, c)) => Some((self.cell(r, c), self.cell_changed(r, c))),
            None => None,
        }
    }

    /// A table of the given shape: every cell is empty and unchanged, no
    /// column has a kind or an alias, and the table is not dynamic.
    pub open spec fn blank(id: u64, rows: nat, cols: nat) -> TableModel {
        TableModel {
            id,
            dynamic: false,
            rows,
            columns: Seq::new(cols, |c: int| ColumnModel::blank(rows)),
            aliases: Seq::new(cols, |c: int| None),
            strings: Map::empty(),
        }
    }

    /// The table brought to the given shape: cells within both the old and
    /// the new shape keep their value and flag, columns that stay keep their
    /// kind and alias, and every new cell is empty and unchanged.
    pub open spec fn resize(self, rows: nat, cols: nat) -> TableModel {
        TableModel {
            rows,
            columns: Seq::new(
                cols,
                |c: int|
                    if c < self.columns.len() {
                        self.columns[c].extend(rows, Value::Empty)
                    } else {
                        ColumnModel::blank(rows)
                    },
            ),
            aliases: Seq::new(
                cols,
                |c: int|
                    if c < self.aliases.len() {
                        self.aliases[c]
                    } else {
                        None
                    },
            ),
            ..self
        }
    }

    /// The table after `value` was written into the cell at `row` and `col`:
    /// see [`ColumnModel::write`]. Every other column is as it was.
    pub open spec fn write(self, row: int, col: int, value: Value) -> TableModel {
        TableModel {
            columns: self.columns.update(col - 1, self.columns[col - 1].write(row - 1, value)),
            ..self
        }
    }

    /// The shape that a dynamic table takes on to hold the cell at `row` and
    /// `column`, where that cell lies beyond its shape and the grown table
    /// fits a machine word.
    pub open spec fn grown_shape(self, row: TableIndex, column: TableIndex) -> Option<(nat, nat)> {
        match (row, column) {
            (TableIndex::Index(r), TableIndex::Index(c)) => {
                let rows = if r > self.rows {
                    r as nat
                } else {
                    self.rows
                };
                let cols = if c > self.cols() {
                    c as nat
                } else {
                    self.cols()
                };
                if self.dynamic && r >= 1 && c >= 1 && !self.in_bounds(r as int, c as int) && rows
                    * cols <= usize::MAX {
                    Some((rows, cols))
                } else {
                    None
                }
            },
            _ => None,
        }
    }

    /// The table after `value` was written into the cell that the selectors
    /// name. A dynamic table first grows to hold a cell beyond its shape.
    /// Where the selectors name no cell, the table stays as it is.
    pub open spec fn set(self, row: TableIndex, column: TableIndex, value: Value) -> TableModel {
        match self.position(row, column) {
            Some((r, c)) => self.write(r, c, value),
            None => match self.grown_shape(row, column) {
                Some((rows, cols)) => self.resize(rows, cols).write(
                    row.spec_unwrap() as int,
                    column.spec_unwrap() as int,
                    value,
                ),
                None => self,
            },
        }
    }

    /// Whether writing `value` into the cell that the selectors name makes a
    /// difference to the values or the shape of the table.
    pub open spec fn set_changes(self, row: TableIndex, column: TableIndex, value: Value) -> bool {
        match self.position(row, column) {
            Some((r, c)) => self.cell(r, c) != value,
            None => self.grown_shape(row, column) is Some,
        }
    }

    /// The column that a write through the selectors lands in.
    pub open spec fn written_column(self, row: TableIndex, column: TableIndex) -> usize {
        match self.position(row, column) {
            Some((r, c)) => c as usize,
            None => column.spec_unwrap(),
        }
    }

    /// The table with the cell at `row` and `col` marked as changed.
    pub open spec fn touch(self, row: int, col: int) -> TableModel {
        TableModel {
            columns: self.columns.update(col - 1, self.columns[col - 1].touch(row - 1)),
            ..self
        }
    }

    /// The table after its first `n` cells, counted row by row, were replaced
    /// by the first `n` values of `data` and marked as changed.
    pub open spec fn set_data_upto(self, data: Seq<Value>, n: nat) -> TableModel
        decreases n,
    {
        if n == 0 {
            self
        } else {
            let before = self.set_data_upto(data, (n - 1) as nat);
            let row = before.linear_row(n as int);
            let col = before.linear_col(n as int);
            before.write(row, col, data[n - 1]).touch(row, col)
        }
    }

    /// The table with every cell replaced, row by row, and marked as
    /// changed.
    pub open spec fn set_data(self, data: Seq<Value>) -> TableModel {
        self.set_data_upto(data, self.rows * self.cols())
    }

    /// The table with `alias` bound to the column at `ix`.
    pub open spec fn set_column_alias(self, ix: int, alias: u64) -> TableModel {
        TableModel { aliases: self.aliases.update(ix - 1, Some(alias)), ..self }
    }

    /// The table with another kind for the column at `ix`: see
    /// [`ColumnModel::set_kind`].
    pub open spec fn set_col_kind(self, ix: int, kind: ValueKind) -> TableModel {
        TableModel {
            columns: self.columns.update(ix - 1, self.columns[ix - 1].set_kind(kind)),
            ..self
        }
    }

    /// The table with the kinds of its first `n` columns set to the first
    /// `n` of `kinds`, one after another: see
    /// [`TableModel::set_col_kind`].
    pub open spec fn with_kinds(self, kinds: Seq<ValueKind>, n: nat) -> TableModel
        decreases n,
    {
        if n == 0 {
            self
        } else {
            self.with_kinds(kinds, (n - 1) as nat).set_col_kind(n as int, kinds[n - 1])
        }
    }

    /// The table with the flag of every cell cleared.
    pub open spec fn reset_changed(self) -> TableModel {
        TableModel {
            columns: Seq::new(self.columns.len(), |c: int| self.columns[c].reset_changed()),
            ..self
        }
    }
}

impl View for Table {
    type V = TableModel;

    open spec fn view(&self) -> TableModel {
        TableModel {
            id: self.id,
            dynamic: self.dynamic,
            rows: self.rows as nat,
            columns: Seq::new(self.columns@.len(), |c: int| self.columns@[c]@),
            aliases: self.aliases@,
            strings: dictionary(self.strings@),
        }
    }
}

impl Table {
    /// The shape is that of the columns, what the table holds is well
    /// formed, and the number of cells fits a machine word.
    pub open spec fn wf(&self) -> bool {
        &&& self.columns@.len() == self.cols
        &&& self.rows * self.cols <= usize::MAX
        &&& self@.wf()
    }

    /// A table without cells, for the moment in which a table is taken out
    /// of its place to be worked on.
    pub fn placeholder(table_id: u64) -> (t: Table)
        ensures
            t.wf(),
            t@ == TableModel::blank(table_id, 0, 0),
    {
        assert(0 * 0 == 0) by (nonlinear_arith);
        let t = Table {
            id: table_id,
            rows: 0,
            cols: 0,
            dynamic: false,
            columns: Vec::new(),
            aliases: Vec::new(),
            strings: Vec::new(),
        };
        assert(t@ =~= TableModel::blank(table_id, 0, 0));
        t
    }

    /// A new table of the given shape: every cell is empty and unchanged, no
    /// column has a kind or an alias yet.
    pub fn new(table_id: u64, rows: usize, cols: usize) -> (t: Table)
        requires
            rows * cols <= usize::MAX,
        ensures
            t.wf(),
            t@ == TableModel::blank(table_id, rows as nat, cols as nat),
    {
        let mut t = Table::placeholder(table_id);
        t.resize(rows, cols);
        assert(t@ =~= TableModel::blank(table_id, rows as nat, cols as nat));
        t
    }

    /// Empties the table: no rows, no columns. The texts stay.
    pub fn clear(&mut self)
        ensures
            final(self).wf(),
            final(self)@ == (TableModel {
                dynamic: old(self).dynamic,
                strings: old(self)@.strings,
                ..TableModel::blank(old(self).id, 0, 0)
            }),
    {
        self.rows = 0;
        self.cols = 0;
        self.columns = Vec::new();
        self.aliases = Vec::new();
        assert(0 * 0 == 0) by (nonlinear_arith);
        assert(self@ =~= (TableModel {
            dynamic: old(self).dynamic,
            strings: old(self)@.strings,
            ..TableModel::blank(old(self).id, 0, 0)
        }));
    }

    /// Brings the table to the given shape. Cells within both the old and the
    /// new shape keep their value and flag, columns that stay keep their kind
    /// and alias, and every new cell is empty and unchanged.
    pub fn resize(&mut self, rows: usize, cols: usize)
        requires
            old(self).wf(),
            rows * cols <= usize::MAX,
        ensures
            final(self).wf(),
            final(self)@ == old(self)@.resize(rows as nat, cols as nat),
    {
        let ghost before = self@;
        self.columns.truncate(cols);
        self.aliases.truncate(cols);
        let kept: usize = self.columns.len();
        let mut c: usize = 0;
        while c < kept
            invariant
                c <= kept,
                kept == self.columns@.len(),
                kept <= cols,
                kept <= before.columns.len(),
                before.wf(),
                before == old(self)@,
                self.aliases@ == old(self).aliases@.take(kept as int),
                self.id == old(self).id,
                self.dynamic == old(self).dynamic,
                self.strings == old(self).strings,
                forall|j: int|
                    0 <= j < c ==> (#[trigger] self.columns@[j]).wf() && self.columns@[j]@
                        == before.columns[j].extend(rows as nat, Value::Empty),
                forall|j: int|
                    c <= j < kept ==> (#[trigger] self.columns@[j])@ == before.columns[j],
            decreases kept - c,
        {
            let mut column = Column { kind: ValueKind::Empty, values: Vec::new(), changed: Vec::new() };
            assert(before.columns[c as int].wf());
            std::mem::swap(&mut column, &mut self.columns[c]);
            column.extend(rows, Value::Empty);
            self.columns.set(c, column);
            c += 1;
        }
        while self.columns.len() < cols
            invariant
                kept <= self.columns@.len() <= cols,
                self.columns@.len() == self.aliases@.len(),
                kept <= before.columns.len(),
                before.wf(),
                before == old(self)@,
                self.id == old(self).id,
                self.dynamic == old(self).dynamic,
                self.strings == old(self).strings,
                kept < cols ==> kept == before.columns.len(),
                forall|j: int|
                    0 <= j < self.aliases@.len() ==> #[trigger] self.aliases@[j] == (if j < kept {
                        old(self).aliases@[j]
                    } else {
                        None
                    }),
                forall|j: int|
                    0 <= j < kept ==> (#[trigger] self.columns@[j]).wf() && self.columns@[j]@
                        == before.columns[j].extend(rows as nat, Value::Empty),
                forall|j: int|
                    kept <= j < self.columns@.len() ==> (#[trigger] self.columns@[j]).wf()
                        && self.columns@[j]@ == ColumnModel::blank(rows as nat),
            decreases cols - self.columns@.len(),
        {
            self.columns.push(Column::blank(rows));
            self.aliases.push(None);
        }
        self.rows = rows;
        self.cols = cols;
        proof {
            let after = before.resize(rows as nat, cols as nat);
            assert(self@.columns =~= after.columns);
            assert(self@.aliases =~= after.aliases);
            assert(self@ =~= after);
        }
    }

    /// Clears the flag of every cell.
    pub fn reset_changed(&mut self)
        requires
            old(self).wf(),
        ensures
            final(self).wf(),
            final(self)@ == old(self)@.reset_changed(),
    {
        let ghost before = self@;
        let n: usize = self.columns.len();
        let mut c: usize = 0;
        while c < n
            invariant
                c <= n,
                n == self.columns@.len(),
                n == old(self).cols,
                n == before.columns.len(),
                before.wf(),
                before == old(self)@,
                self.rows == old(self).rows,
                self.cols == old(self).cols,
                self.id == old(self).id,
                self.dynamic == old(self).dynamic,
                self.strings == old(self).strings,
                self.aliases@ == old(self).aliases@,
                forall|j: int|
                    0 <= j < c ==> (#[trigger] self.columns@[j]).wf() && self.columns@[j]@
                        == before.columns[j].reset_changed(),
                forall|j: int| c <= j < n ==> (#[trigger] self.columns@[j])@ == before.columns[j],
            decreases n - c,
        {
            let mut column = Column { kind: ValueKind::Empty, values: Vec::new(), changed: Vec::new() };
            assert(before.columns[c as int].wf());
            std::mem::swap(&mut column, &mut self.columns[c]);
            column.reset_changed();
            self.columns.set(c, column);
            c += 1;
        }
        proof {
            assert(self@.columns =~= before.reset_changed().columns);
            assert(self@ =~= before.reset_changed());
        }
    }

    /// The linear address of the cell at `row` and `column`.
    pub fn index_unchecked(&self, row: usize, column: usize) -> (ix: usize)
        requires
            self.wf(),
            self@.in_bounds(row as int, column as int),
        ensures
            ix == (row - 1) * self.cols + (column - 1),
            ix < self.rows * self.cols,
    {
        proof {
            lemma_address_bound(row as int, column as int, self.rows as int, self.cols as int);
        }
        (row - 1) * self.cols + (column - 1)
    }

    /// The column that bears `alias`, counted from one.
    pub fn find_alias(&self, alias: u64) -> (col: Option<usize>)
        requires
            self.wf(),
        ensures
            match col {
                Some(c) => self@.column_of_alias(alias) == Some(c as int) && 1 <= c <= self.cols
                    && self.aliases@[c - 1] == Some(alias),
                None => self@.column_of_alias(alias) is None && forall|i: int|
                    0 <= i < self.cols ==> self.aliases@[i] != Some(alias),
            },
    {
        let mut i: usize = 0;
        proof {
            lemma_alias_position(self.aliases@, alias, 0);
        }
        while i < self.aliases.len()
            invariant
                i <= self.aliases@.len(),
                self.aliases@.len() == self.cols,
                alias_position(self.aliases@, alias, 0) == alias_position(
                    self.aliases@,
                    alias,
                    i as int,
                ),
            decreases self.aliases@.len() - i,
        {
            match self.aliases[i] {
                Some(a) => {
                    if a == alias {
                        return Some(i + 1);
                    }
                },
                None => {},
            }
            i += 1;
        }
        None
    }

    /// The cell that a pair of selectors names, as (row, column).
    pub fn locate(&self, row: &TableIndex, column: &TableIndex) -> (p: Option<(usize, usize)>)
        requires
            self.wf(),
        ensures
            match p {
                Some((r, c)) => self@.position(*row, *column) == Some((r as int, c as int))
                    && self@.in_bounds(r as int, c as int),
                None => self@.position(*row, *column) is None,
            },
    {
        match (row, column) {
            (TableIndex::Index(r), TableIndex::Index(c)) => {
                if *c == 0 {
                    if 1 <= *r && *r <= self.rows * self.cols {
                        proof {
                            lemma_linear_position(r - 1, self.rows as int, self.cols as int);
                        }
                        Some(((*r - 1) / self.cols + 1, (*r - 1) % self.cols + 1))
                    } else {
                        None
                    }
                } else if 1 <= *r && *r <= self.rows && *c <= self.cols {
                    Some((*r, *c))
                } else {
                    None
                }
            },
            (TableIndex::Index(r), TableIndex::Alias(alias)) => {
                match self.find_alias(*alias) {
                    Some(c) => {
                        if 1 <= *r && *r <= self.rows {
                            Some((*r, c))
                        } else {
                            None
                        }
                    },
                    None => None,
                }
            },
            _ => None,
        }
    }

    /// The linear address of the cell that a pair of selectors names.
    pub fn index(&self, row: &TableIndex, column: &TableIndex) -> (ix: Option<usize>)
        requires
            self.wf(),
        ensures
            ix == self@.index(*row, *column),
    {
        match self.locate(row, column) {
            Some((r, c)) => Some(self.index_unchecked(r, c)),
            None => None,
        }
    }

    /// Whether a column of the table bears the alias.
    pub fn has_column_alias(&self, alias: u64) -> (b: bool)
        requires
            self.wf(),
        ensures
            b == self@.column_of_alias(alias) is Some,
    {
        match self.find_alias(alias) {
            Some(_) => true,
            None => false,
        }
    }

    /// The alias of the column at `index`, as a selector.
    pub fn get_column_alias(&self, index: usize) -> (alias: Option<TableIndex>)
        requires
            self.wf(),
        ensures
            alias == (if 1 <= index <= self.cols && self.aliases@[index - 1] is Some {
                Some(TableIndex::Alias(self.aliases@[index - 1]->0))
            } else {
                None
            }),
    {
        if 1 <= index && index <= self.cols {
            match self.aliases[index - 1] {
                Some(a) => Some(TableIndex::Alias(a)),
                None => None,
            }
        } else {
            None
        }
    }

    /// The value and the flag of the cell at `row` and `column`.
    pub fn get_unchecked(&self, row: usize, column: usize) -> (r: (Value, bool))
        requires
            self.wf(),
            self@.in_bounds(row as int, column as int),
        ensures
            r == (self@.cell(row as int, column as int), self@.cell_changed(row as int, column as int)),
    {
        let col = &self.columns[column - 1];
        assert(self@.columns[column - 1].wf());
        (col.values[row - 1], col.changed[row - 1])
    }

    /// The value and the flag of the `ix`-th cell, counted row by row from
    /// one.
    pub fn get_unchecked_linear(&self, ix: usize) -> (r: (Value, bool))
        requires
            self.wf(),
            1 <= ix <= self.rows * self.cols,
        ensures
            Some(r) == self@.get(TableIndex::Index(ix), TableIndex::Index(0)),
    {
        match self.locate(&TableIndex::Index(ix), &TableIndex::Index(0)) {
            Some((r, c)) => self.get_unchecked(r, c),
            None => (Value::Empty, false),
        }
    }

    /// The value and the flag of the cell at the position that the selector
    /// carries, counted row by row from one.
    pub fn get_linear(&self, index: &TableIndex) -> (r: Option<(Value, bool)>)
        requires
            self.wf(),
        ensures
            r == self@.get(TableIndex::Index(index.spec_unwrap()), TableIndex::Index(0)),
    {
        let ix: usize = index.unwrap();
        match self.locate(&TableIndex::Index(ix), &TableIndex::Index(0)) {
            Some((r, c)) => Some(self.get_unchecked(r, c)),
            None => None,
        }
    }

    /// The value and the flag of the cell that the selectors name.
    pub fn get(&self, row: &TableIndex, column: &TableIndex) -> (r: Option<(Value, bool)>)
        requires
            self.wf(),
        ensures
            r == self@.get(*row, *column),
    {
        match self.locate(row, column) {
            Some((r, c)) => Some(self.get_unchecked(r, c)),
            None => None,
        }
    }

    /// The number in the cell that the selectors name, with the cell's flag.
    pub fn get_u64(&self, row: &TableIndex, column: &TableIndex) -> (r: Option<(u64, bool)>)
        requires
            self.wf(),
        ensures
            r == (match self@.get(*row, *column) {
                Some((value, changed)) => match value.spec_as_u64() {
                    Some(x) => Some((x, changed)),
                    None => None,
                },
                None => None,
            }),
    {
        match self.get(row, column) {
            Some((value, changed)) => match value.as_u64() {
                Some(x) => Some((x, changed)),
                None => None,
            },
            None => None,
        }
    }

    /// The quantity in the cell that the selectors name, with the cell's
    /// flag.
    pub fn get_quantity(&self, row: &TableIndex, column: &TableIndex) -> (r: Option<
        (Quantity, bool),
    >)
        requires
            self.wf(),
        ensures
            r == (match self@.get(*row, *column) {
                Some((value, changed)) => match value.spec_as_quantity() {
                    Some(x) => Some((x, changed)),
                    None => None,
                },
                None => None,
            }),
    {
        match self.get(row, column) {
            Some((value, changed)) => match value.as_quantity() {
                Some(x) => Some((x, changed)),
                None => None,
            },
            None => None,
        }
    }

    /// The text with this hash, where the table knows one.
    pub fn get_string_from_hash(&self, hash: u64) -> (text: Option<&String>)
        ensures
            match text {
                Some(found) => self@.strings.dom().contains(hash) && found@ == self@.strings[hash],
                None => !self@.strings.dom().contains(hash),
            },
    {
        let mut i: usize = self.strings.len();
        assert(self.strings@.take(i as int) =~= self.strings@);
        while i > 0
            invariant
                i <= self.strings@.len(),
                dictionary(self.strings@).dom().contains(hash) == dictionary(
                    self.strings@.take(i as int),
                ).dom().contains(hash),
                dictionary(self.strings@).dom().contains(hash) ==> dictionary(self.strings@)[hash]
                    == dictionary(self.strings@.take(i as int))[hash],
            decreases i,
        {
            assert(self.strings@.take(i as int).drop_last() =~= self.strings@.take(i - 1));
            if self.strings[i - 1].0 == hash {
                return Some(&self.strings[i - 1].1);
            }
            i -= 1;
        }
        None
    }

    /// Makes a text known to the table under its hash. A text that was
    /// known under the same hash is no longer found.
    pub fn insert_string(&mut self, string: String)
        requires
            old(self).wf(),
        ensures
            final(self).wf(),
            final(self)@ == (TableModel {
                strings: old(self)@.strings.insert(spec_hash_chars(string@), string@),
                ..old(self)@
            }),
    {
        let hash: u64 = hash_str(string.as_str());
        let known: bool = match self.get_string_from_hash(hash) {
            Some(found) => *found == string,
            None => false,
        };
        if known {
            assert(self@.strings =~= self@.strings.insert(hash, string@));
        } else {
            let ghost before = self.strings@;
            self.strings.push((hash, string));
            assert(self.strings@.drop_last() =~= before);
            assert(self@.columns =~= old(self)@.columns);
        }
    }

    /// The text of the string in the cell that the selectors name, with the
    /// cell's flag; none where the cell holds no string or the table does
    /// not know the text.
    pub fn get_string(&self, row: &TableIndex, column: &TableIndex) -> (r: Option<(&String, bool)>)
        requires
            self.wf(),
        ensures
            match r {
                Some((text, changed)) => self@.get(*row, *column) matches Some((Value::String(hash), c))
                    && c == changed && self@.strings.dom().contains(hash) && text@
                    == self@.strings[hash],
                None => !(self@.get(*row, *column) matches Some((Value::String(hash), _))
                    && self@.strings.dom().contains(hash)),
            },
    {
        match self.get(row, column) {
            Some((Value::String(hash), changed)) => match self.get_string_from_hash(hash) {
                Some(text) => Some((text, changed)),
                None => None,
            },
            _ => None,
        }
    }

    /// The id of the table that the cell which the selectors name refers to.
    pub fn get_reference(&self, row: &TableIndex, column: &TableIndex) -> (r: Option<u64>)
        requires
            self.wf(),
        ensures
            r == (match self@.get(*row, *column) {
                Some((Value::Reference(id), _)) => Some(id.spec_unwrap()),
                _ => None,
            }),
    {
        match self.get(row, column) {
            Some((Value::Reference(id), _)) => Some(*id.unwrap()),
            _ => None,
        }
    }

    /// Writes `value` into the cell at `row` and `column`.
    pub fn set_unchecked(&mut self, row: usize, column: usize, value: Value)
        requires
            old(self).wf(),
            old(self)@.in_bounds(row as int, column as int),
        ensures
            final(self).wf(),
            final(self)@ == old(self)@.write(row as int, column as int, value),
    {
        let ghost before = self@;
        let mut col = Column { kind: ValueKind::Empty, values: Vec::new(), changed: Vec::new() };
        assert(before.columns[column - 1].wf());
        std::mem::swap(&mut col, &mut self.columns[column - 1]);
        col.write(row - 1, value);
        self.columns.set(column - 1, col);
        proof {
            let after = before.write(row as int, column as int, value);
            assert(self@.columns =~= after.columns);
            assert(self@ =~= after);
            assert forall|c: int| 0 <= c < after.columns.len() implies (#[trigger] after.columns[c]).wf()
                && after.columns[c].values.len() == after.rows by {
                assert(before.columns[c].wf());
            }
        }
    }

    /// Marks the cell at `row` and `column` as changed.
    pub fn touch(&mut self, row: usize, column: usize)
        requires
            old(self).wf(),
            old(self)@.in_bounds(row as int, column as int),
        ensures
            final(self).wf(),
            final(self)@ == old(self)@.touch(row as int, column as int),
    {
        let ghost before = self@;
        let mut col = Column { kind: ValueKind::Empty, values: Vec::new(), changed: Vec::new() };
        assert(before.columns[column - 1].wf());
        std::mem::swap(&mut col, &mut self.columns[column - 1]);
        col.touch(row - 1);
        self.columns.set(column - 1, col);
        proof {
            let after = before.touch(row as int, column as int);
            assert(self@.columns =~= after.columns);
            assert(self@ =~= after);
            assert forall|c: int| 0 <= c < after.columns.len() implies (#[trigger] after.columns[c]).wf()
                && after.columns[c].values.len() == after.rows by {
                assert(before.columns[c].wf());
            }
        }
    }

    /// Writes `value` into the `index`-th cell, counted row by row from one.
    pub fn set_unchecked_linear(&mut self, index: usize, value: Value)
        requires
            old(self).wf(),
            1 <= index <= old(self).rows * old(self).cols,
        ensures
            final(self).wf(),
            final(self)@ == old(self)@.set(TableIndex::Index(index), TableIndex::Index(0), value),
    {
        match self.locate(&TableIndex::Index(index), &TableIndex::Index(0)) {
            Some((r, c)) => self.set_unchecked(r, c, value),
            None => {},
        }
    }

    /// Writes `value` into the cell that the selectors name. A cell that
    /// already holds the value is left alone; another takes the value and is
    /// marked as changed. A dynamic table first grows to hold a cell beyond
    /// its shape. Where the selectors name no cell, nothing happens.
    pub fn set(&mut self, row: &TableIndex, column: &TableIndex, value: Value)
        requires
            old(self).wf(),
        ensures
            final(self).wf(),
            final(self)@ == old(self)@.set(*row, *column, value),
    {
        let _ = self.set_reporting(row, column, value);
    }

    /// Writes as [`Table::set`] does, and says whether that made a
    /// difference to the values or the shape of the table: the column that
    /// the write landed in, or nothing.
    pub fn set_reporting(&mut self, row: &TableIndex, column: &TableIndex, value: Value) -> (written:
        Option<usize>)
        requires
            old(self).wf(),
        ensures
            final(self).wf(),
            final(self)@ == old(self)@.set(*row, *column, value),
            written == (if old(self)@.set_changes(*row, *column, value) {
                Some(old(self)@.written_column(*row, *column))
            } else {
                None
            }),
    {
        match self.locate(row, column) {
            Some((r, c)) => {
                let (held, _) = self.get_unchecked(r, c);
                self.set_unchecked(r, c, value);
                if held != value {
                    Some(c)
                } else {
                    None
                }
            },
            None => {
                if !self.dynamic {
                    return None;
                }
                match (row, column) {
                    (TableIndex::Index(r), TableIndex::Index(c)) => {
                        if *r >= 1 && *c >= 1 {
                            let rows: usize = if *r > self.rows {
                                *r
                            } else {
                                self.rows
                            };
                            let cols: usize = if *c > self.cols {
                                *c
                            } else {
                                self.cols
                            };
                            match rows.checked_mul(cols) {
                                Some(_) => {
                                    self.resize(rows, cols);
                                    self.set_unchecked(*r, *c, value);
                                    Some(*c)
                                },
                                None => None,
                            }
                        } else {
                            None
                        }
                    },
                    _ => None,
                }
            },
        }
    }

    /// Replaces every cell, row by row, and marks each as changed.
    pub fn set_data(&mut self, data: &Vec<Value>)
        requires
            old(self).wf(),
            data@.len() == old(self).rows * old(self).cols,
        ensures
            final(self).wf(),
            final(self)@ == old(self)@.set_data(data@),
    {
        let n: usize = self.rows * self.cols;
        let mut k: usize = 0;
        while k < n
            invariant
                k <= n,
                n == old(self).rows * old(self).cols,
                n == data@.len(),
                self.wf(),
                self.rows == old(self).rows,
                self.cols == old(self).cols,
                self@ == old(self)@.set_data_upto(data@, k as nat),
            decreases n - k,
        {
            match self.locate(&TableIndex::Index(k + 1), &TableIndex::Index(0)) {
                Some((r, c)) => {
                    self.set_unchecked(r, c, data[k]);
                    self.touch(r, c);
                },
                None => {},
            }
            k += 1;
        }
    }

    /// Whether `alias` can be bound to the column at `ix`: the table has the
    /// column, and no other column bears the alias.
    pub open spec fn alias_error(&self, ix: usize, alias: u64) -> Option<MechErrorKind> {
        if !(1 <= ix <= self.cols) {
            Some(MechErrorKind::LinearSubscriptOutOfBounds(ix, self.cols))
        } else if self@.column_of_alias(alias) is Some && self@.column_of_alias(alias) != Some(
            ix as int,
        ) {
            Some(MechErrorKind::DuplicateAlias(alias))
        } else {
            None
        }
    }

    /// Binds `alias` to the column at `ix`. An alias that another column
    /// bears is refused, and so is a column that the table does not have.
    pub fn set_column_alias(&mut self, ix: usize, alias: u64) -> (r: Result<(), MechErrorKind>)
        requires
            old(self).wf(),
        ensures
            final(self).wf(),
            match old(self).alias_error(ix, alias) {
                Some(e) => r == Err::<(), MechErrorKind>(e) && final(self)@ == old(self)@,
                None => r is Ok && final(self)@ == old(self)@.set_column_alias(ix as int, alias)
                    && final(self)@.column_of_alias(alias) == Some(ix as int),
            },
    {
        if !(1 <= ix && ix <= self.cols) {
            return Err(MechErrorKind::LinearSubscriptOutOfBounds(ix, self.cols));
        }
        match self.find_alias(alias) {
            Some(c) => {
                if c != ix {
                    return Err(MechErrorKind::DuplicateAlias(alias));
                }
                assert(self.aliases@ =~= old(self).aliases@.update(ix - 1, Some(alias)));
            },
            None => {
                self.aliases.set(ix - 1, Some(alias));
            },
        }
        proof {
            assert(self.aliases@[ix - 1] == Some(alias));
            assert forall|i: int, j: int|
                0 <= i < self.cols && 0 <= j < self.cols && i != j && self.aliases@[i] is Some
                implies self.aliases@[i] != self.aliases@[j] by {
                if i != ix - 1 && j != ix - 1 {
                    assert(old(self).aliases@[i] != old(self).aliases@[j]);
                }
            }
            lemma_alias_position(self.aliases@, alias, 0);
            assert(self@ =~= old(self)@.set_column_alias(ix as int, alias));
        }
        Ok(())
    }

    /// Gives the column at `ix` another kind; see [`Column::set_kind`]. A
    /// column that the table does not have is refused.
    pub fn set_col_kind(&mut self, ix: usize, kind: ValueKind) -> (r: Result<(), MechErrorKind>)
        requires
            old(self).wf(),
        ensures
            final(self).wf(),
            r == (if 1 <= ix <= old(self).cols {
                Ok::<(), MechErrorKind>(())
            } else {
                Err(MechErrorKind::LinearSubscriptOutOfBounds(ix, old(self).cols))
            }),
            final(self)@ == (if 1 <= ix <= old(self).cols {
                old(self)@.set_col_kind(ix as int, kind)
            } else {
                old(self)@
            }),
    {
        if !(1 <= ix && ix <= self.cols) {
            return Err(MechErrorKind::LinearSubscriptOutOfBounds(ix, self.cols));
        }
        let ghost before = self@;
        let mut col = Column { kind: ValueKind::Empty, values: Vec::new(), changed: Vec::new() };
        assert(before.columns[ix - 1].wf());
        std::mem::swap(&mut col, &mut self.columns[ix - 1]);
        col.set_kind(kind);
        self.columns.set(ix - 1, col);
        proof {
            let after = before.set_col_kind(ix as int, kind);
            assert(self@.columns =~= after.columns);
            assert(self@ =~= after);
            assert forall|c: int| 0 <= c < after.columns.len() implies (#[trigger] after.columns[c]).wf()
                && after.columns[c].values.len() == after.rows by {
                assert(before.columns[c].wf());
            }
        }
        Ok(())
    }

    /// A table with the same id, shape, cells, flags, kinds and aliases.
    pub fn copy(&self) -> (t: Table)
        requires
            self.wf(),
        ensures
            t.wf(),
            t@ == self@,
    {
        let mut columns: Vec<Column> = Vec::new();
        let mut aliases: Vec<Option<u64>> = Vec::new();
        let mut c: usize = 0;
        while c < self.cols
            invariant
                c <= self.cols,
                self.wf(),
                columns@.len() == c,
                aliases@ == self.aliases@.take(c as int),
                forall|j: int| 0 <= j < c ==> (#[trigger] columns@[j])@ == self.columns@[j]@,
            decreases self.cols - c,
        {
            assert(self@.columns[c as int].wf());
            columns.push(self.columns[c].copy());
            aliases.push(self.aliases[c]);
            assert(self.aliases@.take(c + 1) =~= self.aliases@.take(c as int).push(
                self.aliases@[c as int],
            ));
            c += 1;
        }
        assert(self.aliases@.take(c as int) =~= self.aliases@);
        let mut strings: Vec<(u64, String)> = Vec::new();
        let mut i: usize = 0;
        while i < self.strings.len()
            invariant
                i <= self.strings@.len(),
                strings@ == self.strings@.take(i as int),
            decreases self.strings@.len() - i,
        {
            strings.push((self.strings[i].0, self.strings[i].1.clone()));
            assert(self.strings@.take(i + 1) =~= self.strings@.take(i as int).push(
                self.strings@[i as int],
            ));
            i += 1;
        }
        assert(self.strings@.take(i as int) =~= self.strings@);
        let t = Table {
            id: self.id,
            rows: self.rows,
            cols: self.cols,
            dynamic: self.dynamic,
            columns,
            aliases,
            strings,
        };
        assert(t@.columns =~= self@.columns);
        assert(t@ =~= self@);
        t
    }
}

/// Setting the kinds of the first `n` columns keeps the table well formed
/// and keeps its shape, its aliases and its id; each of those columns has
/// its new kind, and the others keep theirs.
pub proof fn lemma_with_kinds(t: TableModel, kinds: Seq<ValueKind>, n: nat)
    requires
        t.wf(),
        n <= t.cols(),
    ensures
        t.with_kinds(kinds, n).wf(),
        t.with_kinds(kinds, n).id == t.id,
        t.with_kinds(kinds, n).dynamic == t.dynamic,
        t.with_kinds(kinds, n).rows == t.rows,
        t.with_kinds(kinds, n).cols() == t.cols(),
        t.with_kinds(kinds, n).aliases == t.aliases,
        forall|c: int|
            0 <= c < t.cols() ==> (#[trigger] t.with_kinds(kinds, n).columns[c]).kind == (if c < n {
                kinds[c]
            } else {
                t.columns[c].kind
            }),
    decreases n,
{
    if n > 0 {
        lemma_with_kinds(t, kinds, (n - 1) as nat);
        let before = t.with_kinds(kinds, (n - 1) as nat);
        let after = before.set_col_kind(n as int, kinds[n - 1]);
        assert(before.columns[n - 1].wf());
        assert forall|c: int| 0 <= c < after.columns.len() implies (#[trigger] after.columns[c]).wf()
            && after.columns[c].values.len() == after.rows by {
            assert(before.columns[c].wf());
        }
    }
}


/// Every well-formed table has as many columns as its shape says, each with
/// as many cells, and as many flags, as the table has rows.
pub proof fn lemma_table_shape(t: Table)
    requires
        t.wf(),
    ensures
        t.columns@.len() == t.cols,
        forall|c: int| 0 <= c < t.cols ==> (#[trigger] t.columns@[c]).values@.len() == t.rows,
        forall|c: int| 0 <= c < t.cols ==> (#[trigger] t.columns@[c]).changed@.len() == t.rows,
{
    assert forall|c: int| 0 <= c < t.cols implies (#[trigger] t.columns@[c]).values@.len()
        == t.rows && t.columns@[c].changed@.len() == t.rows by {
        assert(t@.columns[c].wf());
    }
}

} // verus!
