//! The database: the global tables, the changes that reach them, and the
//! store of interned values.

use vstd::prelude::*;
use crate::error::{MechErrorKind, TableShape};
use crate::indexes::TableRegistry;
use crate::runtime::Register;
use crate::table::{Table, TableId, TableIndex, TableModel};
use crate::value::{Value, ValueKind};

verus! {

/// One mutation of a global table. Tables change in no other way.
#[derive(Debug)]
pub enum Change {
    /// Make a table of this shape, unless one with this id exists.
    NewTable { table_id: u64, rows: usize, columns: usize },
    /// Bind an alias to a column.
    SetColumnAlias { table_id: u64, column_ix: usize, column_alias: u64 },
    /// Give a column another kind.
    SetColumnKind { table_id: u64, column_ix: usize, kind: ValueKind },
    /// Write values into cells, one after another.
    SetCells { table_id: u64, values: Vec<(TableIndex, TableIndex, Value)> },
    /// Replace every cell of the table, row by row.
    SetTable { table_id: u64, data: Vec<Value> },
    /// Bring the table to this shape.
    Resize { table_id: u64, rows: usize, columns: usize },
}

/// What a change says, as mathematics sees it.
#[verifier::ext_equal]
pub enum ChangeModel {
    NewTable { table_id: u64, rows: usize, columns: usize },
    SetColumnAlias { table_id: u64, column_ix: usize, column_alias: u64 },
    SetColumnKind { table_id: u64, column_ix: usize, kind: ValueKind },
    SetCells { table_id: u64, values: Seq<(TableIndex, TableIndex, Value)> },
    SetTable { table_id: u64, data: Seq<Value> },
    Resize { table_id: u64, rows: usize, columns: usize },
}

impl View for Change {
    type V = ChangeModel;

    open spec fn view(&self) -> ChangeModel {
        match *self {
            Change::NewTable { table_id, rows, columns } => ChangeModel::NewTable {
                table_id,
                rows,
                columns,
            },
            Change::SetColumnAlias { table_id, column_ix, column_alias } => ChangeModel::SetColumnAlias {
                table_id,
                column_ix,
                column_alias,
            },
            Change::SetColumnKind { table_id, column_ix, kind } => ChangeModel::SetColumnKind {
                table_id,
                column_ix,
                kind,
            },
            Change::SetCells { table_id, values } => ChangeModel::SetCells {
                table_id,
                values: values@,
            },
            Change::SetTable { table_id, data } => ChangeModel::SetTable { table_id, data: data@ },
            Change::Resize { table_id, rows, columns } => ChangeModel::Resize {
                table_id,
                rows,
                columns,
            },
        }
    }
}

/// What the changes say, one after another.
pub open spec fn views(changes: Seq<Change>) -> Seq<ChangeModel> {
    Seq::new(changes.len(), |i: int| changes[i]@)
}

/// The order in which the changes of one transaction are applied: first
/// those that shape tables, then those that describe columns, then those
/// that write data.
#[derive(Clone, Copy, Debug, PartialEq, Eq, Structural, Hash)]
pub enum ChangeClass {
    Shape,
    Metadata,
    Data,
}

/// What a change did: the tables afterwards, and the columns that changed
/// or the reason for which nothing was done.
pub struct Outcome {
    pub tables: Map<u64, TableModel>,
    pub result: Result<Seq<Register>, MechErrorKind>,
}

/// The table after the first `n` writes of `values`, each as
/// [`TableModel::set`] does it.
pub open spec fn set_cells(
    t: TableModel,
    values: Seq<(TableIndex, TableIndex, Value)>,
    n: nat,
) -> TableModel
    decreases n,
{
    if n == 0 {
        t
    } else {
        let entry = values[n - 1];
        set_cells(t, values, (n - 1) as nat).set(entry.0, entry.1, entry.2)
    }
}

/// One register for each of the first `n` writes that made a difference: the
/// column it landed in.
pub open spec fn cell_registers(
    t: TableModel,
    values: Seq<(TableIndex, TableIndex, Value)>,
    n: nat,
) -> Seq<Register>
    decreases n,
{
    if n == 0 {
        Seq::empty()
    } else {
        let before = set_cells(t, values, (n - 1) as nat);
        let entry = values[n - 1];
        let earlier = cell_registers(t, values, (n - 1) as nat);
        if before.set_changes(entry.0, entry.1, entry.2) {
            earlier.push(
                Register { table: t.id, column: before.written_column(entry.0, entry.1) as u64 },
            )
        } else {
            earlier
        }
    }
}

/// The register that stands for a table as a whole.
pub open spec fn table_register(table_id: u64) -> Register {
    Register { table: table_id, column: 0 }
}

impl ChangeModel {
    /// The id of the table that the change is about.
    pub open spec fn table_id(self) -> u64 {
        match self {
            ChangeModel::NewTable { table_id, .. } => table_id,
            ChangeModel::SetColumnAlias { table_id, .. } => table_id,
            ChangeModel::SetColumnKind { table_id, .. } => table_id,
            ChangeModel::SetCells { table_id, .. } => table_id,
            ChangeModel::SetTable { table_id, .. } => table_id,
            ChangeModel::Resize { table_id, .. } => table_id,
        }
    }

    /// The class of the change: shape, metadata or data.
    pub open spec fn class(self) -> ChangeClass {
        match self {
            ChangeModel::NewTable { .. } | ChangeModel::Resize { .. } => ChangeClass::Shape,
            ChangeModel::SetColumnAlias { .. } | ChangeModel::SetColumnKind { .. } => ChangeClass::Metadata,
            ChangeModel::SetCells { .. } | ChangeModel::SetTable { .. } => ChangeClass::Data,
        }
    }

    /// What applying the change to `tables` does.
    ///
    /// - `NewTable` adds a blank table, and leaves an existing one alone.
    /// - Every other change needs its table, and fails without it.
    /// - `Resize` and `NewTable` fail for a shape whose cells a machine word
    ///   cannot count.
    /// - `SetColumnAlias` and `SetColumnKind` fail as
    ///   [`Table::set_column_alias`] and [`Table::set_col_kind`] do.
    ///   `SetColumnKind` reports the table where the column had another
    ///   kind before.
    /// - `SetCells` writes one cell after another and reports the column of
    ///   each write that made a difference, then the table as a whole.
    /// - `SetTable` takes as many values as the table has cells, and fails
    ///   for any other number.
    /// - A change that fails leaves the tables as they were.
    pub open spec fn apply(self, tables: Map<u64, TableModel>) -> Outcome {
        let id = self.table_id();
        let unchanged = |e: MechErrorKind| Outcome { tables, result: Err(e) };
        match self {
            ChangeModel::NewTable { table_id, rows, columns } => {
                if tables.dom().contains(id) {
                    Outcome { tables, result: Ok(Seq::empty()) }
                } else if rows * columns > usize::MAX {
                    unchanged(MechErrorKind::UnhandledTableShape(TableShape::Matrix(rows, columns)))
                } else {
                    Outcome {
                        tables: tables.insert(id, TableModel::blank(id, rows as nat, columns as nat)),
                        result: Ok(seq![table_register(id)]),
                    }
                }
            },
            _ => if !tables.dom().contains(id) {
                unchanged(MechErrorKind::MissingTable(TableId::Global(id)))
            } else {
                let t = tables[id];
                match self {
                    ChangeModel::Resize { table_id, rows, columns } => {
                        if rows * columns > usize::MAX {
                            unchanged(
                                MechErrorKind::UnhandledTableShape(TableShape::Matrix(rows, columns)),
                            )
                        } else {
                            Outcome {
                                tables: tables.insert(id, t.resize(rows as nat, columns as nat)),
                                result: Ok(
                                    if t.rows == rows && t.cols() == columns {
                                        Seq::empty()
                                    } else {
                                        seq![table_register(id)]
                                    },
                                ),
                            }
                        }
                    },
                    ChangeModel::SetColumnAlias { table_id, column_ix, column_alias } => {
                        if !(1 <= column_ix <= t.cols()) {
                            unchanged(
                                MechErrorKind::LinearSubscriptOutOfBounds(
                                    column_ix,
                                    t.cols() as usize,
                                ),
                            )
                        } else if t.column_of_alias(column_alias) is Some && t.column_of_alias(
                            column_alias,
                        ) != Some(column_ix as int) {
                            unchanged(MechErrorKind::DuplicateAlias(column_alias))
                        } else {
                            Outcome {
                                tables: tables.insert(
                                    id,
                                    t.set_column_alias(column_ix as int, column_alias),
                                ),
                                result: Ok(seq![table_register(id)]),
                            }
                        }
                    },
                    ChangeModel::SetColumnKind { table_id, column_ix, kind } => {
                        if !(1 <= column_ix <= t.cols()) {
                            unchanged(
                                MechErrorKind::LinearSubscriptOutOfBounds(
                                    column_ix,
                                    t.cols() as usize,
                                ),
                            )
                        } else {
                            Outcome {
                                tables: tables.insert(id, t.set_col_kind(column_ix as int, kind)),
                                result: Ok(
                                    if t.col_kind(column_ix as int) == kind {
                                        Seq::empty()
                                    } else {
                                        seq![table_register(id)]
                                    },
                                ),
                            }
                        }
                    },
                    ChangeModel::SetCells { table_id, values } => {
                        let registers = cell_registers(t, values, values.len());
                        Outcome {
                            tables: tables.insert(id, set_cells(t, values, values.len())),
                            result: Ok(
                                if registers.len() == 0 {
                                    registers
                                } else {
                                    registers.push(table_register(id))
                                },
                            ),
                        }
                    },
                    ChangeModel::SetTable { table_id, data } => {
                        if data.len() != t.rows * t.cols() {
                            unchanged(
                                MechErrorKind::LinearSubscriptOutOfBounds(
                                    data.len() as usize,
                                    (t.rows * t.cols()) as usize,
                                ),
                            )
                        } else {
                            Outcome {
                                tables: tables.insert(id, t.set_data(data)),
                                result: Ok(seq![table_register(id)]),
                            }
                        }
                    },
                    _ => Outcome { tables, result: Ok(Seq::empty()) },
                }
            },
        }
    }
}


proof fn lemma_set_cells_id(t: TableModel, values: Seq<(TableIndex, TableIndex, Value)>, n: nat)
    ensures
        set_cells(t, values, n).id == t.id,
    decreases n,
{
    if n > 0 {
        lemma_set_cells_id(t, values, (n - 1) as nat);
    }
}

proof fn lemma_set_data_id(t: TableModel, data: Seq<Value>, n: nat)
    requires
        n <= t.rows * t.cols(),
    ensures
        set_data_id_holds(t, data, n),
    decreases n,
{
    if n > 0 {
        lemma_set_data_id(t, data, (n - 1) as nat);
        crate::table::lemma_linear_position(n - 1, t.rows as int, t.cols() as int);
    }
}

spec fn set_data_id_holds(t: TableModel, data: Seq<Value>, n: nat) -> bool {
    let after = t.set_data_upto(data, n);
    after.id == t.id && after.rows == t.rows && after.cols() == t.cols()
}

impl Change {
    /// The id of the table that the change is about.
    pub fn table_id(&self) -> (id: u64)
        ensures
            id == self@.table_id(),
    {
        match self {
            Change::NewTable { table_id, .. } => *table_id,
            Change::SetColumnAlias { table_id, .. } => *table_id,
            Change::SetColumnKind { table_id, .. } => *table_id,
            Change::SetCells { table_id, .. } => *table_id,
            Change::SetTable { table_id, .. } => *table_id,
            Change::Resize { table_id, .. } => *table_id,
        }
    }

    /// The class of the change: shape, metadata or data.
    pub fn class(&self) -> (c: ChangeClass)
        ensures
            c == self@.class(),
    {
        match self {
            Change::NewTable { .. } | Change::Resize { .. } => ChangeClass::Shape,
            Change::SetColumnAlias { .. } | Change::SetColumnKind { .. } => ChangeClass::Metadata,
            Change::SetCells { .. } | Change::SetTable { .. } => ChangeClass::Data,
        }
    }

    /// A change that says the same.
    pub fn copy(&self) -> (c: Change)
        ensures
            c@ == self@,
    {
        match self {
            Change::NewTable { table_id, rows, columns } => Change::NewTable {
                table_id: *table_id,
                rows: *rows,
                columns: *columns,
            },
            Change::SetColumnAlias { table_id, column_ix, column_alias } => Change::SetColumnAlias {
                table_id: *table_id,
                column_ix: *column_ix,
                column_alias: *column_alias,
            },
            Change::SetColumnKind { table_id, column_ix, kind } => Change::SetColumnKind {
                table_id: *table_id,
                column_ix: *column_ix,
                kind: *kind,
            },
            Change::SetCells { table_id, values } => {
                let mut copied: Vec<(TableIndex, TableIndex, Value)> = Vec::new();
                let mut i: usize = 0;
                while i < values.len()
                    invariant
                        i <= values@.len(),
                        copied@ == values@.take(i as int),
                    decreases values@.len() - i,
                {
                    let entry = values[i];
                    copied.push((entry.0, entry.1, entry.2));
                    assert(values@.take(i + 1) =~= values@.take(i as int).push(values@[i as int]));
                    i += 1;
                }
                assert(values@.take(i as int) =~= values@);
                Change::SetCells { table_id: *table_id, values: copied }
            },
            Change::SetTable { table_id, data } => {
                let mut copied: Vec<Value> = Vec::new();
                let mut i: usize = 0;
                while i < data.len()
                    invariant
                        i <= data@.len(),
                        copied@ == data@.take(i as int),
                    decreases data@.len() - i,
                {
                    copied.push(data[i]);
                    assert(data@.take(i + 1) =~= data@.take(i as int).push(data@[i as int]));
                    i += 1;
                }
                assert(data@.take(i as int) =~= data@);
                Change::SetTable { table_id: *table_id, data: copied }
            },
            Change::Resize { table_id, rows, columns } => Change::Resize {
                table_id: *table_id,
                rows: *rows,
                columns: *columns,
            },
        }
    }

    /// Applies the change to the tables, and reports the columns that
    /// changed.
    pub fn apply_to(&self, tables: &mut TableRegistry) -> (r: Result<Vec<Register>, MechErrorKind>)
        requires
            old(tables).wf(),
        ensures
            final(tables).wf(),
            final(tables)@ == self@.apply(old(tables)@).tables,
            match r {
                Ok(registers) => self@.apply(old(tables)@).result == Ok::<
                    Seq<Register>,
                    MechErrorKind,
                >(registers@),
                Err(e) => self@.apply(old(tables)@).result == Err::<Seq<Register>, MechErrorKind>(e),
            },
    {
        let id: u64 = self.table_id();
        match self {
            Change::NewTable { table_id, rows, columns } => {
                if tables.contains(id) {
                    return Ok(Vec::new());
                }
                match rows.checked_mul(*columns) {
                    Some(_) => {
                        let _ = tables.register(Table::new(id, *rows, *columns));
                        let mut registers: Vec<Register> = Vec::new();
                        registers.push(Register { table: id, column: 0 });
                        assert(registers@ =~= seq![table_register(id)]);
                        Ok(registers)
                    },
                    None => Err(
                        MechErrorKind::UnhandledTableShape(TableShape::Matrix(*rows, *columns)),
                    ),
                }
            },
            _ => {
                let mut table: Table = match tables.take(id) {
                    Some(table) => table,
                    None => {
                        return Err(MechErrorKind::MissingTable(TableId::Global(id)));
                    },
                };
                let ghost before = table@;
                let ghost outcome = self@.apply(old(tables)@);
                let mut registers: Vec<Register> = Vec::new();
                let result: Result<(), MechErrorKind> = match self {
                    Change::Resize { table_id, rows, columns } => {
                        match rows.checked_mul(*columns) {
                            Some(_) => {
                                if table.rows != *rows || table.cols != *columns {
                                    registers.push(Register { table: id, column: 0 });
                                }
                                table.resize(*rows, *columns);
                                Ok(())
                            },
                            None => Err(
                                MechErrorKind::UnhandledTableShape(
                                    TableShape::Matrix(*rows, *columns),
                                ),
                            ),
                        }
                    },
                    Change::SetColumnAlias { table_id, column_ix, column_alias } => {
                        registers.push(Register { table: id, column: 0 });
                        table.set_column_alias(*column_ix, *column_alias)
                    },
                    Change::SetColumnKind { table_id, column_ix, kind } => {
                        if 1 <= *column_ix && *column_ix <= table.cols {
                            if table.columns[*column_ix - 1].kind() != *kind {
                                registers.push(Register { table: id, column: 0 });
                            }
                        }
                        table.set_col_kind(*column_ix, *kind)
                    },
                    Change::SetCells { table_id, values } => {
                        let mut i: usize = 0;
                        while i < values.len()
                            invariant
                                i <= values@.len(),
                                table.wf(),
                                before.id == id,
                                table@ == set_cells(before, values@, i as nat),
                                registers@ == cell_registers(before, values@, i as nat),
                            decreases values@.len() - i,
                        {
                            let entry = values[i];
                            match table.set_reporting(&entry.0, &entry.1, entry.2) {
                                Some(column) => {
                                    registers.push(Register { table: id, column: column as u64 });
                                },
                                None => {},
                            }
                            i += 1;
                        }
                        if registers.len() > 0 {
                            registers.push(Register { table: id, column: 0 });
                        }
                        proof {
                            lemma_set_cells_id(before, values@, values@.len());
                        }
                        Ok(())
                    },
                    Change::SetTable { table_id, data } => {
                        let cells: usize = table.rows * table.cols;
                        if data.len() != cells {
                            Err(MechErrorKind::LinearSubscriptOutOfBounds(data.len(), cells))
                        } else {
                            registers.push(Register { table: id, column: 0 });
                            table.set_data(data);
                            proof {
                                lemma_set_data_id(before, data@, before.rows * before.cols());
                            }
                            Ok(())
                        }
                    },
                    _ => Ok(()),
                };
                assert(table.id == id);
                tables.put(table);
                proof {
                    assert(tables@ =~= outcome.tables);
                }
                match result {
                    Ok(()) => {
                        assert(outcome.result == Ok::<Seq<Register>, MechErrorKind>(registers@)) by {
                            assert(registers@ =~= outcome.result->Ok_0);
                        }
                        Ok(registers)
                    },
                    Err(e) => Err(e),
                }
            },
        }
    }
}


/// A batch of changes that is applied as one: no block runs in between.
#[derive(Debug)]
pub struct Transaction {
    pub timestamp: u64,
    pub complete: bool,
    pub epoch: u64,
    pub round: u64,
    /// The changes, in the order in which they were handed in.
    pub changes: Vec<Change>,
}

impl Transaction {
    /// A transaction without changes.
    pub fn new() -> (txn: Transaction)
        ensures
            txn.changes@.len() == 0,
            txn.timestamp == 0,
            !txn.complete,
            txn.epoch == 0,
            txn.round == 0,
    {
        Transaction { timestamp: 0, complete: false, epoch: 0, round: 0, changes: Vec::new() }
    }

    /// The transaction that holds these changes, in this order.
    pub fn from_changeset(changes: Vec<Change>) -> (txn: Transaction)
        ensures
            txn.changes == changes,
            txn.timestamp == 0,
            !txn.complete,
            txn.epoch == 0,
            txn.round == 0,
    {
        Transaction { timestamp: 0, complete: false, epoch: 0, round: 0, changes }
    }

    /// The transaction that holds this one change.
    pub fn from_change(change: Change) -> (txn: Transaction)
        ensures
            txn.changes@ == seq![change],
            txn.timestamp == 0,
            !txn.complete,
            txn.epoch == 0,
            txn.round == 0,
    {
        let mut changes: Vec<Change> = Vec::new();
        changes.push(change);
        assert(changes@ =~= seq![change]);
        Transaction { timestamp: 0, complete: false, epoch: 0, round: 0, changes }
    }

    /// Whether `change` writes `value` into the one cell at `row` and
    /// `column` of `table`.
    pub open spec fn writes_cell(change: Change, table: u64, row: u64, column: u64, value: Value) -> bool {
        change@ == (ChangeModel::SetCells {
            table_id: table,
            values: seq![
                (TableIndex::Index(row as usize), TableIndex::Index(column as usize), value),
            ],
        })
    }

    /// The transaction that writes each added number into its cell, and
    /// after that empties each cell from which a number is removed. Each
    /// entry is a table, a row, a column and a number.
    pub fn from_adds_removes(
        adds: Vec<(u64, u64, u64, u64)>,
        removes: Vec<(u64, u64, u64, u64)>,
    ) -> (txn: Transaction)
        ensures
            txn.changes@.len() == adds@.len() + removes@.len(),
            forall|i: int|
                0 <= i < adds@.len() ==> Transaction::writes_cell(
                    #[trigger] txn.changes@[i],
                    adds@[i].0,
                    adds@[i].1,
                    adds@[i].2,
                    Value::U64(adds@[i].3),
                ),
            forall|i: int|
                0 <= i < removes@.len() ==> Transaction::writes_cell(
                    #[trigger] txn.changes@[adds@.len() + i],
                    removes@[i].0,
                    removes@[i].1,
                    removes@[i].2,
                    Value::Empty,
                ),
            txn.timestamp == 0,
            !txn.complete,
            txn.epoch == 0,
            txn.round == 0,
    {
        let mut changes: Vec<Change> = Vec::new();
        let mut i: usize = 0;
        while i < adds.len()
            invariant
                i <= adds@.len(),
                changes@.len() == i,
                forall|j: int|
                    0 <= j < i ==> Transaction::writes_cell(
                        #[trigger] changes@[j],
                        adds@[j].0,
                        adds@[j].1,
                        adds@[j].2,
                        Value::U64(adds@[j].3),
                    ),
            decreases adds@.len() - i,
        {
            let entry = adds[i];
            changes.push(Transaction::cell_change(entry.0, entry.1, entry.2, Value::from_u64(entry.3)));
            i += 1;
        }
        let mut k: usize = 0;
        while k < removes.len()
            invariant
                k <= removes@.len(),
                changes@.len() == adds@.len() + k,
                forall|j: int|
                    0 <= j < adds@.len() ==> Transaction::writes_cell(
                        #[trigger] changes@[j],
                        adds@[j].0,
                        adds@[j].1,
                        adds@[j].2,
                        Value::U64(adds@[j].3),
                    ),
                forall|j: int|
                    0 <= j < k ==> Transaction::writes_cell(
                        #[trigger] changes@[adds@.len() + j],
                        removes@[j].0,
                        removes@[j].1,
                        removes@[j].2,
                        Value::Empty,
                    ),
            decreases removes@.len() - k,
        {
            let entry = removes[k];
            changes.push(Transaction::cell_change(entry.0, entry.1, entry.2, Value::Empty));
            k += 1;
        }
        Transaction { timestamp: 0, complete: false, epoch: 0, round: 0, changes }
    }

    fn cell_change(table: u64, row: u64, column: u64, value: Value) -> (change: Change)
        ensures
            Transaction::writes_cell(change, table, row, column, value),
    {
        let mut values: Vec<(TableIndex, TableIndex, Value)> = Vec::new();
        values.push((TableIndex::Index(row as usize), TableIndex::Index(column as usize), value));
        assert(values@ =~= seq![
            (TableIndex::Index(row as usize), TableIndex::Index(column as usize), value),
        ]);
        Change::SetCells { table_id: table, values }
    }

    /// Whether the transaction was applied in full.
    pub fn is_complete(&self) -> (b: bool)
        ensures
            b == self.complete,
    {
        self.complete == true
    }
}

/// The tables after the first `n` changes of the given class were applied,
/// in their order. A change that fails ends the pass.
pub open spec fn apply_pass(
    tables: Map<u64, TableModel>,
    changes: Seq<ChangeModel>,
    class: ChangeClass,
    n: nat,
) -> Outcome
    decreases n,
{
    if n == 0 {
        Outcome { tables, result: Ok(Seq::empty()) }
    } else {
        let before = apply_pass(tables, changes, class, (n - 1) as nat);
        let change = changes[n - 1];
        if before.result is Err || change.class() != class {
            before
        } else {
            let step = change.apply(before.tables);
            Outcome {
                tables: step.tables,
                result: match step.result {
                    Ok(registers) => Ok(before.result->Ok_0 + registers),
                    Err(e) => Err(e),
                },
            }
        }
    }
}

/// The tables after the whole transaction: the changes that shape tables
/// first, then those that describe columns, then those that write data,
/// each kind in the order in which its changes were handed in. The first
/// change that fails ends the transaction; what was applied before it stays.
pub open spec fn apply_transaction(tables: Map<u64, TableModel>, changes: Seq<ChangeModel>) -> Outcome {
    let shape = apply_pass(tables, changes, ChangeClass::Shape, changes.len());
    if shape.result is Err {
        shape
    } else {
        let metadata = apply_pass(shape.tables, changes, ChangeClass::Metadata, changes.len());
        if metadata.result is Err {
            metadata
        } else {
            let data = apply_pass(metadata.tables, changes, ChangeClass::Data, changes.len());
            Outcome {
                tables: data.tables,
                result: match data.result {
                    Ok(registers) => Ok(shape.result->Ok_0 + metadata.result->Ok_0 + registers),
                    Err(e) => Err(e),
                },
            }
        }
    }
}

/// The changes of one class that a pass over the first `n` changes tries
/// to apply, in their order: every change of the class up to the first that
/// fails, that one included.
pub open spec fn pass_attempts(
    tables: Map<u64, TableModel>,
    changes: Seq<ChangeModel>,
    class: ChangeClass,
    n: nat,
) -> Seq<ChangeModel>
    decreases n,
{
    if n == 0 {
        Seq::empty()
    } else {
        let earlier = pass_attempts(tables, changes, class, (n - 1) as nat);
        if apply_pass(tables, changes, class, (n - 1) as nat).result is Err || changes[n - 1].class()
            != class {
            earlier
        } else {
            earlier.push(changes[n - 1])
        }
    }
}

/// The changes that a transaction tries to apply, in the order in which it
/// tries them: every change up to the first that fails, that one included.
pub open spec fn attempts(tables: Map<u64, TableModel>, changes: Seq<ChangeModel>) -> Seq<ChangeModel> {
    let shape = apply_pass(tables, changes, ChangeClass::Shape, changes.len());
    let first = pass_attempts(tables, changes, ChangeClass::Shape, changes.len());
    if shape.result is Err {
        first
    } else {
        let metadata = apply_pass(shape.tables, changes, ChangeClass::Metadata, changes.len());
        let second = pass_attempts(shape.tables, changes, ChangeClass::Metadata, changes.len());
        if metadata.result is Err {
            first + second
        } else {
            first + second + pass_attempts(
                metadata.tables,
                changes,
                ChangeClass::Data,
                changes.len(),
            )
        }
    }
}

/// The log of changes, as mathematics sees it: the changes that are kept,
/// how many the log keeps, the place after the change that came last, the
/// number of changes that ever came, and how often the log started over.
#[verifier::ext_equal]
pub struct LogModel {
    pub changes: Seq<ChangeModel>,
    pub capacity: usize,
    pub pointer: usize,
    pub count: usize,
    pub rollover: usize,
}

impl LogModel {
    /// Whether the next change starts the log over: the log is full and the
    /// change before it took the last place.
    pub open spec fn wraps(self) -> bool {
        self.capacity > 0 && self.changes.len() >= self.capacity && self.pointer == self.capacity
    }

    /// The log after one more change came. While there is room the change
    /// is added; in a full log it takes the place after the change before
    /// it, or the first place where that was the last. A log without
    /// capacity keeps nothing. The change is counted either way; the counts
    /// stop at the largest number of a machine word.
    pub open spec fn record(self, change: ChangeModel) -> LogModel {
        let slot = if self.wraps() {
            0
        } else {
            self.pointer as int
        };
        LogModel {
            changes: if self.capacity == 0 {
                self.changes
            } else if self.changes.len() < self.capacity {
                self.changes.push(change)
            } else {
                self.changes.update(slot, change)
            },
            capacity: self.capacity,
            pointer: if self.capacity == 0 {
                self.pointer
            } else {
                (slot + 1) as usize
            },
            count: if self.count < usize::MAX {
                (self.count + 1) as usize
            } else {
                self.count
            },
            rollover: if self.wraps() && self.rollover < usize::MAX {
                (self.rollover + 1) as usize
            } else {
                self.rollover
            },
        }
    }

    /// The log after the changes came, one after another.
    pub open spec fn record_all(self, changes: Seq<ChangeModel>) -> LogModel
        decreases changes.len(),
    {
        if changes.len() == 0 {
            self
        } else {
            self.record_all(changes.drop_last()).record(changes.last())
        }
    }
}

/// Changes that come one after another are recorded as if they came in one
/// go.
pub proof fn lemma_record_all(log: LogModel, first: Seq<ChangeModel>, second: Seq<ChangeModel>)
    ensures
        log.record_all(first + second) == log.record_all(first).record_all(second),
    decreases second.len(),
{
    if second.len() == 0 {
        assert(first + second =~= first);
    } else {
        lemma_record_all(log, first, second.drop_last());
        assert((first + second).drop_last() =~= first + second.drop_last());
        assert((first + second).last() == second.last());
    }
}

/// One more change is recorded after those before it.
pub proof fn lemma_record_one_more(log: LogModel, changes: Seq<ChangeModel>, change: ChangeModel)
    ensures
        log.record_all(changes.push(change)) == log.record_all(changes).record(change),
{
    assert(changes.push(change).drop_last() =~= changes);
}

/// The tables of the database, and the log of the changes that reached
/// them. The log keeps the newest changes, as many as its capacity allows:
/// once it is full, a new change takes the place of the oldest.
#[derive(Debug)]
pub struct Interner {
    pub tables: TableRegistry,
    pub changes: Vec<Change>,
    pub capacity: usize,
    pub changes_count: usize,
    pub change_pointer: usize,
    pub rollover: usize,
}

impl Interner {
    /// The tables are well formed and the change log stays within its capacity.
    pub open spec fn wf(&self) -> bool {
        &&& self.tables.wf()
        &&& self.changes@.len() <= self.capacity
        &&& self.change_pointer <= self.changes@.len()
        &&& self.changes@.len() < self.capacity ==> self.change_pointer == self.changes@.len()
    }

    /// The log of changes, as mathematics sees it.
    pub open spec fn log(&self) -> LogModel {
        LogModel {
            changes: views(self.changes@),
            capacity: self.capacity,
            pointer: self.change_pointer,
            count: self.changes_count,
            rollover: self.rollover,
        }
    }

    /// An interner without tables, whose log keeps `change_capacity`
    /// changes.
    pub fn new(change_capacity: usize, table_capacity: usize) -> (store: Interner)
        ensures
            store.wf(),
            store.tables@ == Map::<u64, TableModel>::empty(),
            store.changes@.len() == 0,
            store.capacity == change_capacity,
            store.changes_count == 0,
            store.change_pointer == 0,
            store.rollover == 0,
    {
        Interner {
            tables: TableRegistry::new(),
            changes: Vec::new(),
            capacity: change_capacity,
            changes_count: 0,
            change_pointer: 0,
            rollover: 0,
        }
    }

    /// Applies the change to the tables and, where that went well, writes it
    /// into the log. Reports the columns that changed.
    pub fn intern_change(&mut self, change: &Change) -> (r: Result<Vec<Register>, MechErrorKind>)
        requires
            old(self).wf(),
        ensures
            final(self).wf(),
            final(self).capacity == old(self).capacity,
            final(self).tables@ == change@.apply(old(self).tables@).tables,
            final(self).log() == old(self).log().record(change@),
            match r {
                Ok(registers) => change@.apply(old(self).tables@).result == Ok::<
                    Seq<Register>,
                    MechErrorKind,
                >(registers@),
                Err(e) => change@.apply(old(self).tables@).result == Err::<
                    Seq<Register>,
                    MechErrorKind,
                >(e),
            },
    {
        let result = change.apply_to(&mut self.tables);
        let ghost before = views(self.changes@);
        if self.capacity > 0 {
            if self.changes.len() < self.capacity {
                self.changes.push(change.copy());
                assert(views(self.changes@) =~= before.push(change@));
            } else {
                if self.change_pointer == self.capacity {
                    self.change_pointer = 0;
                    if self.rollover < usize::MAX {
                        self.rollover += 1;
                    }
                }
                self.changes.set(self.change_pointer, change.copy());
                assert(views(self.changes@) =~= before.update(self.change_pointer as int, change@));
            }
            self.change_pointer += 1;
        }
        if self.changes_count < usize::MAX {
            self.changes_count += 1;
        }
        result
    }

    /// The values of the column at `column_ix` of the table with this id.
    pub fn get_column(&self, table: u64, column_ix: usize) -> (column: Option<&Vec<Value>>)
        requires
            self.wf(),
        ensures
            match column {
                Some(values) => self.tables@.dom().contains(table) && 1 <= column_ix
                    <= self.tables@[table].cols() && values@
                    == self.tables@[table].columns[column_ix - 1].values,
                None => !(self.tables@.dom().contains(table) && 1 <= column_ix
                    <= self.tables@[table].cols()),
            },
    {
        match self.tables.get(table) {
            Some(stored_table) => {
                if 1 <= column_ix && column_ix <= stored_table.cols {
                    Some(&stored_table.columns[column_ix - 1].values)
                } else {
                    None
                }
            },
            None => None,
        }
    }

    /// The value of the cell at `row_ix` and `column_ix` of the table with
    /// this id.
    pub fn get_cell(&self, table: u64, row_ix: usize, column_ix: usize) -> (cell: Option<Value>)
        requires
            self.wf(),
        ensures
            cell == (if self.tables@.dom().contains(table) && self.tables@[table].in_bounds(
                row_ix as int,
                column_ix as int,
            ) {
                Some(self.tables@[table].cell(row_ix as int, column_ix as int))
            } else {
                None
            }),
    {
        match self.tables.get(table) {
            Some(stored_table) => {
                if 1 <= row_ix && row_ix <= stored_table.rows && 1 <= column_ix && column_ix
                    <= stored_table.cols {
                    Some(stored_table.get_unchecked(row_ix, column_ix).0)
                } else {
                    None
                }
            },
            None => None,
        }
    }

    /// The number of changes that were interned.
    pub fn len(&self) -> (n: usize)
        ensures
            n == self.changes_count,
    {
        self.changes_count as usize
    }

    /// Applies the changes of one class, in their order, up to the first
    /// that fails. The registers of the columns that changed are added to
    /// `registers`.
    fn intern_pass(&mut self, changes: &Vec<Change>, class: ChangeClass, registers: &mut Vec<
        Register,
    >) -> (r: Result<(), MechErrorKind>)
        requires
            old(self).wf(),
        ensures
            final(self).wf(),
            final(self).capacity == old(self).capacity,
            final(self).tables@ == apply_pass(
                old(self).tables@,
                views(changes@),
                class,
                changes@.len(),
            ).tables,
            final(self).log() == old(self).log().record_all(
                pass_attempts(old(self).tables@, views(changes@), class, changes@.len()),
            ),
            match r {
                Ok(()) => apply_pass(old(self).tables@, views(changes@), class, changes@.len()).result
                    == Ok::<Seq<Register>, MechErrorKind>(
                    final(registers)@.skip(old(registers)@.len() as int),
                ) && final(registers)@.take(old(registers)@.len() as int) == old(registers)@
                    && final(registers)@.len() >= old(registers)@.len(),
                Err(e) => apply_pass(old(self).tables@, views(changes@), class, changes@.len()).result
                    == Err::<Seq<Register>, MechErrorKind>(e),
            },
    {
        let ghost start = self.tables@;
        let ghost base = registers@;
        let mut i: usize = 0;
        assert(registers@.skip(base.len() as int) =~= Seq::<Register>::empty());
        assert(registers@.take(base.len() as int) =~= base);
        while i < changes.len()
            invariant
                i <= changes@.len(),
                self.wf(),
                self.capacity == old(self).capacity,
                start == old(self).tables@,
                base == old(registers)@,
                self.tables@ == apply_pass(start, views(changes@), class, i as nat).tables,
                self.log() == old(self).log().record_all(
                    pass_attempts(start, views(changes@), class, i as nat),
                ),
                apply_pass(start, views(changes@), class, i as nat).result == Ok::<
                    Seq<Register>,
                    MechErrorKind,
                >(registers@.skip(base.len() as int)),
                registers@.len() >= base.len(),
                registers@.take(base.len() as int) == base,
            decreases changes@.len() - i,
        {
            if changes[i].class() == class {
                proof {
                    lemma_record_one_more(
                        old(self).log(),
                        pass_attempts(start, views(changes@), class, i as nat),
                        changes@[i as int]@,
                    );
                }
                match self.intern_change(&changes[i]) {
                    Ok(mut more) => {
                        let ghost earlier = registers@;
                        let ghost added = more@;
                        registers.append(&mut more);
                        proof {
                            assert(registers@.skip(base.len() as int) =~= earlier.skip(
                                base.len() as int,
                            ) + added);
                            assert(registers@.take(base.len() as int) =~= base);
                        }
                    },
                    Err(e) => {
                        proof {
                            lemma_pass_stops(start, views(changes@), class, (i + 1) as nat, changes@.len());
                            lemma_attempts_stop(
                                start,
                                views(changes@),
                                class,
                                (i + 1) as nat,
                                changes@.len(),
                            );
                        }
                        return Err(e);
                    },
                }
            }
            i += 1;
        }
        Ok(())
    }

    /// Applies a transaction: the changes that shape tables first, then
    /// those that describe columns, then those that write data. Returns the
    /// registers of the columns that changed, or the first failure.
    pub fn intern_transaction(&mut self, txn: &Transaction) -> (r: Result<Vec<Register>, MechErrorKind>)
        requires
            old(self).wf(),
        ensures
            final(self).wf(),
            final(self).capacity == old(self).capacity,
            final(self).tables@ == apply_transaction(old(self).tables@, views(txn.changes@)).tables,
            final(self).log() == old(self).log().record_all(
                attempts(old(self).tables@, views(txn.changes@)),
            ),
            match r {
                Ok(registers) => apply_transaction(old(self).tables@, views(txn.changes@)).result == Ok::<
                    Seq<Register>,
                    MechErrorKind,
                >(registers@),
                Err(e) => apply_transaction(old(self).tables@, views(txn.changes@)).result == Err::<
                    Seq<Register>,
                    MechErrorKind,
                >(e),
            },
    {
        let mut registers: Vec<Register> = Vec::new();
        let ghost start = self.tables@;
        let ghost changes = views(txn.changes@);
        let ghost log = self.log();
        let ghost first = pass_attempts(start, changes, ChangeClass::Shape, changes.len());
        match self.intern_pass(&txn.changes, ChangeClass::Shape, &mut registers) {
            Ok(()) => {},
            Err(e) => {
                return Err(e);
            },
        }
        let ghost shape = registers@;
        let ghost shaped = self.tables@;
        let ghost second = pass_attempts(shaped, changes, ChangeClass::Metadata, changes.len());
        assert(shape.skip(0) =~= shape);
        proof {
            lemma_record_all(log, first, second);
        }
        match self.intern_pass(&txn.changes, ChangeClass::Metadata, &mut registers) {
            Ok(()) => {},
            Err(e) => {
                return Err(e);
            },
        }
        let ghost metadata = registers@;
        let ghost described = self.tables@;
        proof {
            lemma_record_all(
                log,
                first + second,
                pass_attempts(described, changes, ChangeClass::Data, changes.len()),
            );
        }
        match self.intern_pass(&txn.changes, ChangeClass::Data, &mut registers) {
            Ok(()) => {},
            Err(e) => {
                return Err(e);
            },
        }
        proof {
            let n = shape.len() as int;
            let m = metadata.len() as int;
            assert(registers@ =~= shape + metadata.skip(n) + registers@.skip(m)) by {
                assert(registers@.take(m) == metadata);
                assert(metadata.take(n) == shape);
                assert(registers@ =~= registers@.take(m) + registers@.skip(m));
                assert(metadata =~= metadata.take(n) + metadata.skip(n));
            }
        }
        Ok(registers)
    }
}

/// Once a pass has failed, the changes that follow do nothing.
proof fn lemma_pass_stops(
    tables: Map<u64, TableModel>,
    changes: Seq<ChangeModel>,
    class: ChangeClass,
    failed: nat,
    n: nat,
)
    requires
        failed <= n,
        apply_pass(tables, changes, class, failed).result is Err,
    ensures
        apply_pass(tables, changes, class, n) == apply_pass(tables, changes, class, failed),
    decreases n,
{
    if failed < n {
        lemma_pass_stops(tables, changes, class, failed, (n - 1) as nat);
    }
}


/// Once a pass has failed, it tries no further change.
proof fn lemma_attempts_stop(
    tables: Map<u64, TableModel>,
    changes: Seq<ChangeModel>,
    class: ChangeClass,
    failed: nat,
    n: nat,
)
    requires
        failed <= n,
        apply_pass(tables, changes, class, failed).result is Err,
    ensures
        pass_attempts(tables, changes, class, n) == pass_attempts(tables, changes, class, failed),
    decreases n,
{
    if failed < n {
        lemma_attempts_stop(tables, changes, class, failed, (n - 1) as nat);
        lemma_pass_stops(tables, changes, class, failed, (n - 1) as nat);
    }
}


impl Transaction {
    /// A transaction that says the same.
    pub fn copy(&self) -> (txn: Transaction)
        ensures
            views(txn.changes@) == views(self.changes@),
            txn.timestamp == self.timestamp,
            txn.complete == self.complete,
            txn.epoch == self.epoch,
            txn.round == self.round,
    {
        let mut changes: Vec<Change> = Vec::new();
        let mut i: usize = 0;
        while i < self.changes.len()
            invariant
                i <= self.changes@.len(),
                changes@.len() == i,
                forall|j: int| 0 <= j < i ==> (#[trigger] changes@[j])@ == self.changes@[j]@,
            decreases self.changes@.len() - i,
        {
            changes.push(self.changes[i].copy());
            i += 1;
        }
        assert(views(changes@) =~= views(self.changes@));
        Transaction {
            timestamp: self.timestamp,
            complete: self.complete,
            epoch: self.epoch,
            round: self.round,
            changes,
        }
    }
}

/// The database: the global tables with the log of their changes, and the
/// transactions that were processed, in their order.
#[derive(Debug)]
pub struct Database {
    pub epoch: u64,
    pub processed: usize,
    pub store: Interner,
    pub transactions: Vec<Transaction>,
    pub last_transaction: usize,
    /// The tables that are watched from outside, each with a flag that says
    /// whether a transaction has changed the table since it was watched.
    pub watched: Vec<(u64, bool)>,
}

/// The place of the first entry for `table` from `from` on, if there is one.
pub open spec fn watch_position(watched: Seq<(u64, bool)>, table: u64, from: int) -> Option<int>
    decreases watched.len() - from,
{
    if from < 0 || from >= watched.len() {
        None
    } else if watched[from].0 == table {
        Some(from)
    } else {
        watch_position(watched, table, from + 1)
    }
}

/// The watched tables once `table` is watched: its flag is cleared where it
/// was watched already, and it is added with a clear flag where it was not.
pub open spec fn watching(watched: Seq<(u64, bool)>, table: u64) -> Seq<(u64, bool)> {
    match watch_position(watched, table, 0) {
        Some(i) => watched.update(i, (table, false)),
        None => watched.push((table, false)),
    }
}

/// Whether one of the registers is of the table.
pub open spec fn touches(registers: Seq<Register>, table: u64) -> bool {
    exists|i: int| 0 <= i < registers.len() && (#[trigger] registers[i]).table == table
}

/// The watched tables after columns have changed: a table with a register
/// among those that changed is flagged, and every other entry is as it was.
pub open spec fn marked(watched: Seq<(u64, bool)>, registers: Seq<Register>) -> Seq<(u64, bool)> {
    Seq::new(
        watched.len(),
        |i: int| (watched[i].0, watched[i].1 || touches(registers, watched[i].0)),
    )
}

/// What the transactions say, one after another.
pub open spec fn transaction_views(transactions: Seq<Transaction>) -> Seq<Seq<ChangeModel>> {
    Seq::new(transactions.len(), |i: int| views(transactions[i].changes@))
}

impl Database {
    /// The store of tables and changes is well formed.
    pub open spec fn wf(&self) -> bool {
        self.store.wf()
    }

    /// A database without tables. The log of changes keeps
    /// `change_capacity` changes.
    pub fn new(change_capacity: usize, table_capacity: usize) -> (db: Database)
        ensures
            db.wf(),
            db.store.tables@ == Map::<u64, TableModel>::empty(),
            db.store.capacity == change_capacity,
            db.store.log() == (LogModel {
                changes: Seq::empty(),
                capacity: change_capacity,
                pointer: 0,
                count: 0,
                rollover: 0,
            }),
            db.transactions@.len() == 0,
            db.epoch == 0,
            db.processed == 0,
            db.last_transaction == 0,
            db.watched@.len() == 0,
    {
        let db = Database {
            epoch: 0,
            processed: 0,
            store: Interner::new(change_capacity, table_capacity),
            transactions: Vec::new(),
            last_transaction: 0,
            watched: Vec::new(),
        };
        assert(db.store.log().changes =~= Seq::<ChangeModel>::empty());
        db
    }

    /// Watches a table: from now on the database notes whether a
    /// transaction has changed it.
    pub fn register_watcher(&mut self, table: u64)
        ensures
            final(self).watched@ == watching(old(self).watched@, table),
            final(self).epoch == old(self).epoch,
            final(self).processed == old(self).processed,
            final(self).store == old(self).store,
            final(self).transactions == old(self).transactions,
            final(self).last_transaction == old(self).last_transaction,
    {
        let mut i: usize = 0;
        while i < self.watched.len()
            invariant
                i <= self.watched@.len(),
                self.watched == old(self).watched,
                self.epoch == old(self).epoch,
                self.processed == old(self).processed,
                self.store == old(self).store,
                self.transactions == old(self).transactions,
                self.last_transaction == old(self).last_transaction,
                watch_position(self.watched@, table, 0) == watch_position(
                    self.watched@,
                    table,
                    i as int,
                ),
            decreases self.watched@.len() - i,
        {
            if self.watched[i].0 == table {
                self.watched.set(i, (table, false));
                return ;
            }
            i += 1;
        }
        self.watched.push((table, false));
    }

    /// Whether the table is watched and a transaction has changed it since;
    /// `None` where the table is not watched.
    pub fn watched_flag(&self, table: u64) -> (flag: Option<bool>)
        ensures
            flag == (match watch_position(self.watched@, table, 0) {
                Some(i) => Some(self.watched@[i].1),
                None => None,
            }),
    {
        let mut i: usize = 0;
        while i < self.watched.len()
            invariant
                i <= self.watched@.len(),
                watch_position(self.watched@, table, 0) == watch_position(
                    self.watched@,
                    table,
                    i as int,
                ),
            decreases self.watched@.len() - i,
        {
            if self.watched[i].0 == table {
                return Some(self.watched[i].1);
            }
            i += 1;
        }
        None
    }

    /// Flags the watched tables that have a register among those that
    /// changed.
    pub fn mark_watched(&mut self, registers: &Vec<Register>)
        ensures
            final(self).watched@ == marked(old(self).watched@, registers@),
            final(self).epoch == old(self).epoch,
            final(self).processed == old(self).processed,
            final(self).store == old(self).store,
            final(self).transactions == old(self).transactions,
            final(self).last_transaction == old(self).last_transaction,
    {
        let mut i: usize = 0;
        while i < self.watched.len()
            invariant
                i <= self.watched@.len(),
                self.watched@.len() == old(self).watched@.len(),
                self.epoch == old(self).epoch,
                self.processed == old(self).processed,
                self.store == old(self).store,
                self.transactions == old(self).transactions,
                self.last_transaction == old(self).last_transaction,
                forall|j: int| 0 <= j < i ==> #[trigger] self.watched@[j] == marked(
                    old(self).watched@,
                    registers@,
                )[j],
                forall|j: int| i <= j < self.watched@.len() ==> #[trigger] self.watched@[j] == old(
                    self,
                ).watched@[j],
            decreases self.watched@.len() - i,
        {
            let entry = self.watched[i];
            let mut touched: bool = false;
            let mut k: usize = 0;
            while k < registers.len() && !touched
                invariant
                    k <= registers@.len(),
                    touched ==> touches(registers@, entry.0),
                    !touched ==> forall|x: int| 0 <= x < k ==> (#[trigger] registers@[x]).table != entry.0,
                decreases registers@.len() - k + (if touched { 0int } else { 1int }),
            {
                if registers[k].table == entry.0 {
                    touched = true;
                } else {
                    k += 1;
                }
            }
            self.watched.set(i, (entry.0, entry.1 || touched));
            i += 1;
        }
        assert(self.watched@ =~= marked(old(self).watched@, registers@));
    }

    /// Applies a transaction to the tables and keeps it in the log of
    /// transactions. Returns the registers of the columns that changed, or
    /// the first change that failed. Every change that was tried is
    /// recorded in the log of changes, the watched tables that changed are
    /// flagged, the transaction is counted, and the epoch is the number of
    /// times that the log of changes has started over.
    pub fn process_transaction(&mut self, txn: &Transaction) -> (r: Result<Vec<Register>, MechErrorKind>)
        requires
            old(self).wf(),
        ensures
            final(self).wf(),
            final(self).store.capacity == old(self).store.capacity,
            final(self).store.tables@ == apply_transaction(
                old(self).store.tables@,
                views(txn.changes@),
            ).tables,
            match r {
                Ok(registers) => apply_transaction(old(self).store.tables@, views(txn.changes@)).result
                    == Ok::<Seq<Register>, MechErrorKind>(registers@),
                Err(e) => apply_transaction(old(self).store.tables@, views(txn.changes@)).result
                    == Err::<Seq<Register>, MechErrorKind>(e),
            },
            transaction_views(final(self).transactions@) == transaction_views(
                old(self).transactions@,
            ).push(views(txn.changes@)),
            final(self).last_transaction == old(self).store.change_pointer,
            final(self).store.log() == old(self).store.log().record_all(
                attempts(old(self).store.tables@, views(txn.changes@)),
            ),
            final(self).epoch == final(self).store.rollover as u64,
            final(self).processed == (if old(self).processed < usize::MAX {
                (old(self).processed + 1) as usize
            } else {
                old(self).processed
            }),
            final(self).watched@ == (match r {
                Ok(registers) => marked(old(self).watched@, registers@),
                Err(_) => old(self).watched@,
            }),
    {
        self.last_transaction = self.store.change_pointer;
        let r = self.store.intern_transaction(txn);
        if self.processed < usize::MAX {
            self.processed += 1;
        }
        self.epoch = self.store.rollover as u64;
        let ghost before = transaction_views(self.transactions@);
        self.transactions.push(txn.copy());
        assert(transaction_views(self.transactions@) =~= before.push(views(txn.changes@)));
        match &r {
            Ok(registers) => {
                self.mark_watched(registers);
            },
            Err(_) => {},
        }
        r
    }

    /// The table with this id.
    pub fn get_table(&self, table_id: u64) -> (t: Option<&Table>)
        requires
            self.wf(),
        ensures
            match t {
                Some(table) => self.store.tables@.dom().contains(table_id) && table@
                    == self.store.tables@[table_id] && table.wf(),
                None => !self.store.tables@.dom().contains(table_id),
            },
    {
        self.store.tables.get(table_id)
    }

    /// The value of the cell that the selectors name in the table with this
    /// id.
    pub fn get(&self, table_id: u64, row: &TableIndex, column: &TableIndex) -> (value: Option<Value>)
        requires
            self.wf(),
        ensures
            value == (if self.store.tables@.dom().contains(table_id) {
                match self.store.tables@[table_id].get(*row, *column) {
                    Some((v, _)) => Some(v),
                    None => None,
                }
            } else {
                None
            }),
    {
        match self.store.tables.get(table_id) {
            Some(table) => match table.get(row, column) {
                Some((v, _)) => Some(v),
                None => None,
            },
            None => None,
        }
    }
}


/// The writes that take a table back: for each of the first `n` cells of
/// `after`, counted row by row, that is marked as changed, the value that
/// the cell holds in `before`.
pub open spec fn undo_entries(before: TableModel, after: TableModel, n: nat) -> Seq<
    (TableIndex, TableIndex, Value),
>
    decreases n,
{
    if n == 0 {
        Seq::empty()
    } else {
        let earlier = undo_entries(before, after, (n - 1) as nat);
        let r = after.linear_row(n as int);
        let c = after.linear_col(n as int);
        if after.cell_changed(r, c) {
            earlier.push(
                (TableIndex::Index(r as usize), TableIndex::Index(c as usize), before.cell(r, c)),
            )
        } else {
            earlier
        }
    }
}

/// The change that takes a table back to what it held before: it writes,
/// into every cell of `after` that is marked as changed, the value that the
/// cell holds in `before`. There is none where the two tables differ in
/// shape.
pub fn inverse_of(before: &Table, after: &Table) -> (change: Option<Change>)
    requires
        before.wf(),
        after.wf(),
    ensures
        match change {
            Some(undo) => before.rows == after.rows && before.cols == after.cols && undo@ == (
            ChangeModel::SetCells {
                table_id: after.id,
                values: undo_entries(before@, after@, (after.rows * after.cols) as nat),
            }),
            None => before.rows != after.rows || before.cols != after.cols,
        },
{
    if before.rows != after.rows || before.cols != after.cols {
        return None;
    }
    let n: usize = after.rows * after.cols;
    let mut values: Vec<(TableIndex, TableIndex, Value)> = Vec::new();
    let mut k: usize = 0;
    while k < n
        invariant
            k <= n,
            n == after.rows * after.cols,
            before.wf(),
            after.wf(),
            before.rows == after.rows,
            before.cols == after.cols,
            values@ == undo_entries(before@, after@, k as nat),
        decreases n - k,
    {
        proof {
            crate::table::lemma_linear_position(k as int, after.rows as int, after.cols as int);
        }
        let r: usize = k / after.cols + 1;
        let c: usize = k % after.cols + 1;
        let (_, changed) = after.get_unchecked(r, c);
        if changed {
            let (held, _) = before.get_unchecked(r, c);
            values.push((TableIndex::Index(r), TableIndex::Index(c), held));
        }
        k += 1;
    }
    Some(Change::SetCells { table_id: after.id, values })
}

} // verus!
