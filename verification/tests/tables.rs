use mech_core::block::Register;
use mech_core::column::Column;
use mech_core::database::{inverse_of, Change, Database, Interner, Transaction};
use mech_core::error::{MechErrorKind, TableShape};
use mech_core::runtime::Register as ColumnRegister;
use mech_core::store::Store;
use mech_core::{hash_str, Table, TableId, TableIndex, Value, ValueKind};

fn index(k: usize) -> TableIndex {
    TableIndex::Index(k)
}

fn filled(rows: usize, cols: usize) -> Table {
    let mut t = Table::new(1, rows, cols);
    for r in 1..=rows {
        for c in 1..=cols {
            t.set_unchecked(r, c, Value::U64((r * 10 + c) as u64));
        }
    }
    t
}

fn shape_holds(t: &Table) {
    assert_eq!(t.columns.len(), t.cols);
    for column in &t.columns {
        assert_eq!(column.values.len(), t.rows);
        assert_eq!(column.changed.len(), t.rows);
    }
}

#[test]
fn every_table_has_the_shape_it_says() {
    let mut t = Table::new(1, 2, 3);
    shape_holds(&t);
    t.resize(4, 1);
    shape_holds(&t);
    t.resize(0, 5);
    shape_holds(&t);
    t.resize(3, 0);
    shape_holds(&t);
    assert_eq!((t.rows, t.cols), (3, 0));
    t.dynamic = true;
    t.set(&index(5), &index(2), Value::U8(1));
    shape_holds(&t);
    assert_eq!((t.rows, t.cols), (5, 2));
    t.clear();
    shape_holds(&t);
    assert_eq!((t.rows, t.cols), (0, 0));
}

#[test]
fn new_tables_are_empty_and_unchanged() {
    let t = Table::new(7, 2, 2);
    assert_eq!(t.id, 7);
    assert_eq!(t.get(&index(1), &index(1)), Some((Value::Empty, false)));
    assert_eq!(t.columns[0].kind, ValueKind::Empty);
    assert_eq!(t.get_column_alias(1), None);
}

#[test]
fn set_writes_only_what_differs() {
    let mut t = Table::new(1, 2, 2);
    t.set(&index(1), &index(2), Value::U64(5));
    assert_eq!(t.get(&index(1), &index(2)), Some((Value::U64(5), true)));
    assert_eq!(t.columns[1].kind, ValueKind::U64);
    t.reset_changed();
    assert_eq!(t.get(&index(1), &index(2)), Some((Value::U64(5), false)));
    t.set(&index(1), &index(2), Value::U64(5));
    assert_eq!(t.get(&index(1), &index(2)), Some((Value::U64(5), false)));
    t.set(&index(1), &index(2), Value::U64(6));
    assert_eq!(t.get(&index(1), &index(2)), Some((Value::U64(6), true)));
    t.set(&index(2), &index(2), Value::Bool(true));
    assert_eq!(t.columns[1].kind, ValueKind::Any);
    t.set(&index(3), &index(1), Value::U64(1));
    assert_eq!((t.rows, t.cols), (2, 2));
    t.set(&TableIndex::All, &index(1), Value::U64(1));
    assert_eq!(t.get(&index(1), &index(1)), Some((Value::Empty, false)));
}

#[test]
fn cells_are_counted_row_by_row() {
    let t = filled(2, 3);
    assert_eq!(t.index(&index(2), &index(1)), Some(3));
    assert_eq!(t.index(&index(2), &index(3)), Some(5));
    assert_eq!(t.index(&index(3), &index(1)), None);
    assert_eq!(t.index(&index(1), &index(4)), None);
    assert_eq!(t.index(&index(0), &index(1)), None);
    assert_eq!(t.index(&index(4), &index(0)), Some(3));
    assert_eq!(t.index(&index(7), &index(0)), None);
    assert_eq!(t.index(&index(0), &index(0)), None);
    assert_eq!(t.index_unchecked(2, 2), 4);
    assert_eq!(t.get_linear(&index(4)), Some((Value::U64(21), true)));
    assert_eq!(t.get_linear(&index(6)), Some((Value::U64(23), true)));
    assert_eq!(t.get_linear(&index(7)), None);
    assert_eq!(t.get_linear(&TableIndex::All), None);
    assert_eq!(t.get_unchecked_linear(2), (Value::U64(12), true));
    assert_eq!(t.get_unchecked(2, 3), (Value::U64(23), true));
    let mut t = t;
    t.set_unchecked_linear(5, Value::U64(0));
    assert_eq!(t.get(&index(2), &index(2)), Some((Value::U64(0), true)));
}

#[test]
fn aliases_name_columns() {
    let mut t = filled(2, 2);
    let x = hash_str("x");
    let y = hash_str("y");
    assert_eq!(t.set_column_alias(2, x), Ok(()));
    assert!(t.has_column_alias(x));
    assert!(!t.has_column_alias(y));
    assert_eq!(t.get_column_alias(2), Some(TableIndex::Alias(x)));
    assert_eq!(t.get(&index(1), &TableIndex::Alias(x)), Some((Value::U64(12), true)));
    assert_eq!(t.get(&index(1), &TableIndex::Alias(y)), None);
    assert_eq!(t.set_column_alias(1, x), Err(MechErrorKind::DuplicateAlias(x)));
    assert_eq!(t.set_column_alias(2, x), Ok(()));
    assert_eq!(t.set_column_alias(3, y), Err(MechErrorKind::LinearSubscriptOutOfBounds(3, 2)));
    assert_eq!(t.set_column_alias(0, y), Err(MechErrorKind::LinearSubscriptOutOfBounds(0, 2)));
    t.set(&index(2), &TableIndex::Alias(x), Value::U64(1));
    assert_eq!(t.get_u64(&index(2), &index(2)), Some((1, true)));
}

#[test]
fn typed_reads() {
    let mut t = Table::new(1, 1, 4);
    t.set_unchecked(1, 1, Value::from_id(9));
    t.set_unchecked(1, 2, Value::from_string("hi"));
    t.set_unchecked(1, 3, Value::I8(-4));
    assert_eq!(t.get_reference(&index(1), &index(1)), Some(9));
    assert_eq!(t.get_reference(&index(1), &index(2)), None);
    assert_eq!(t.get_string(&index(1), &index(2)), None);
    t.insert_string("ho".to_string());
    assert_eq!(t.get_string(&index(1), &index(2)), None);
    t.insert_string("hi".to_string());
    assert_eq!(t.get_string(&index(1), &index(2)), Some((&"hi".to_string(), true)));
    assert_eq!(t.get_string(&index(1), &index(1)), None);
    assert_eq!(t.get_string_from_hash(hash_str("ho")), Some(&"ho".to_string()));
    assert_eq!(t.get_string_from_hash(hash_str("hu")), None);
    t.insert_string("hi".to_string());
    assert_eq!(t.strings.len(), 2);
    let copy = t.copy();
    assert_eq!(copy.get_string_from_hash(hash_str("hi")), Some(&"hi".to_string()));
    assert_eq!(t.get_u64(&index(1), &index(3)), None);
    assert_eq!(t.get_quantity(&index(1), &index(3)).unwrap().0.mantissa(), -4);
    assert_eq!(t.get_u64(&index(1), &index(4)), None);
    t.clear();
    assert_eq!(t.get_string_from_hash(hash_str("hi")), Some(&"hi".to_string()));
}

#[test]
fn resize_keeps_what_fits() {
    let mut t = filled(2, 2);
    t.reset_changed();
    t.resize(3, 3);
    assert_eq!(t.get(&index(2), &index(2)), Some((Value::U64(22), false)));
    assert_eq!(t.get(&index(3), &index(1)), Some((Value::Empty, false)));
    assert_eq!(t.get(&index(1), &index(3)), Some((Value::Empty, false)));
    assert_eq!(t.columns[0].kind, ValueKind::U64);
    assert_eq!(t.columns[2].kind, ValueKind::Empty);
    t.resize(1, 1);
    assert_eq!(t.get(&index(1), &index(1)), Some((Value::U64(11), false)));
    assert_eq!(t.get(&index(2), &index(1)), None);
}

#[test]
fn column_kinds() {
    let mut c = Column::new(ValueKind::U8, 2);
    assert_eq!(c.len(), 2);
    assert_eq!(c.values, vec![Value::U8(0), Value::U8(0)]);
    c.resize(3);
    assert_eq!(c.values[2], Value::U8(0));
    assert_eq!(c.kind(), ValueKind::U8);
    c.write(0, Value::U8(7));
    c.set_kind(ValueKind::Bool);
    assert_eq!(c.values, vec![Value::Empty; 3]);
    assert_eq!(c.changed, vec![true; 3]);
    let mut flags = Column::new(ValueKind::Bool, 3);
    flags.write(1, Value::Bool(true));
    assert_eq!(flags.logical_len(), 1);
    assert_eq!(c.logical_len(), 0);
    assert_eq!(Column::new(ValueKind::U8, 4).logical_len(), 4);
    let copy = flags.copy();
    assert_eq!(copy.values, flags.values);
    assert_eq!(copy.changed, flags.changed);
    let mut t = filled(1, 1);
    assert_eq!(t.set_col_kind(1, ValueKind::U64), Ok(()));
    assert_eq!(t.get_unchecked(1, 1).0, Value::U64(11));
    assert_eq!(t.set_col_kind(2, ValueKind::U64), Err(MechErrorKind::LinearSubscriptOutOfBounds(2, 1)));
}

#[test]
fn set_data_replaces_every_cell() {
    let mut t = Table::new(1, 2, 2);
    t.set_unchecked(1, 1, Value::U8(1));
    t.reset_changed();
    t.set_data(&vec![Value::U8(1), Value::U8(2), Value::U8(3), Value::U8(4)]);
    assert_eq!(t.get_unchecked(1, 1), (Value::U8(1), true));
    assert_eq!(t.get_unchecked(1, 2), (Value::U8(2), true));
    assert_eq!(t.get_unchecked(2, 1), (Value::U8(3), true));
    assert_eq!(t.get_unchecked(2, 2), (Value::U8(4), true));
    let copy = t.copy();
    assert_eq!(copy.get_unchecked(2, 1), (Value::U8(3), true));
    assert_eq!(copy.id, 1);
}

#[test]
fn register_keys_are_hashes_of_their_numbers() {
    let register = Register::new(TableId::Global(5), TableIndex::Index(2), TableIndex::Alias(9));
    let mut bytes = Vec::new();
    bytes.extend_from_slice(&5u64.to_le_bytes());
    bytes.extend_from_slice(&2u64.to_le_bytes());
    bytes.extend_from_slice(&9u64.to_le_bytes());
    assert_eq!(register.hash(), seahash::hash(&bytes) & 0x00FF_FFFF_FFFF_FFFF);
    assert_eq!(register.hash(), register.hash());
    let local = Register::new(TableId::Local(5), TableIndex::Alias(2), TableIndex::Index(9));
    assert_eq!(local.hash(), register.hash());
    let all = Register::new(TableId::Global(5), TableIndex::All, TableIndex::Absent);
    let zero = Register::new(TableId::Global(5), TableIndex::Index(0), TableIndex::Index(0));
    assert_eq!(all.hash(), zero.hash());
    assert_ne!(all.hash(), register.hash());
}

fn cells(table: u64, values: Vec<(usize, usize, u64)>) -> Change {
    Change::SetCells {
        table_id: table,
        values: values.into_iter().map(|(r, c, v)| (index(r), index(c), Value::U64(v))).collect(),
    }
}

#[test]
fn transactions_shape_then_describe_then_write() {
    let mut store = Interner::new(10, 10);
    let txn = Transaction::from_changeset(vec![
        cells(1, vec![(1, 1, 5), (2, 2, 6), (1, 1, 5)]),
        Change::SetColumnAlias { table_id: 1, column_ix: 2, column_alias: 77 },
        Change::NewTable { table_id: 1, rows: 1, columns: 1 },
        Change::Resize { table_id: 1, rows: 2, columns: 2 },
    ]);
    let registers = store.intern_transaction(&txn).unwrap();
    assert_eq!(
        registers,
        vec![
            ColumnRegister { table: 1, column: 0 },
            ColumnRegister { table: 1, column: 0 },
            ColumnRegister { table: 1, column: 0 },
            ColumnRegister { table: 1, column: 1 },
            ColumnRegister { table: 1, column: 2 },
            ColumnRegister { table: 1, column: 0 },
        ]
    );
    assert_eq!(store.get_cell(1, 2, 2), Some(Value::U64(6)));
    assert_eq!(store.get_cell(1, 1, 2), Some(Value::Empty));
    assert_eq!(store.get_cell(1, 3, 1), None);
    assert_eq!(store.get_cell(2, 1, 1), None);
    assert_eq!(store.get_column(1, 1), Some(&vec![Value::U64(5), Value::Empty]));
    assert_eq!(store.get_column(1, 3), None);
    assert_eq!(store.get_column(1, 0), None);
    assert_eq!(store.len(), 4);
    assert_eq!(store.tables.get(1).unwrap().get_column_alias(2), Some(TableIndex::Alias(77)));
}

#[test]
fn changes_fail_without_their_table() {
    let mut store = Interner::new(10, 10);
    assert_eq!(
        store.intern_change(&cells(3, vec![(1, 1, 1)])),
        Err(MechErrorKind::MissingTable(TableId::Global(3)))
    );
    assert_eq!(store.len(), 1);
    assert_eq!(
        store.intern_change(&Change::NewTable { table_id: 3, rows: usize::MAX, columns: 2 }),
        Err(MechErrorKind::UnhandledTableShape(TableShape::Matrix(usize::MAX, 2)))
    );
    store.intern_change(&Change::NewTable { table_id: 3, rows: 1, columns: 2 }).unwrap();
    assert_eq!(store.intern_change(&Change::NewTable { table_id: 3, rows: 5, columns: 5 }), Ok(vec![]));
    assert_eq!(store.tables.get(3).unwrap().rows, 1);
    assert_eq!(
        store.intern_change(&Change::SetTable { table_id: 3, data: vec![Value::U8(1)] }),
        Err(MechErrorKind::LinearSubscriptOutOfBounds(1, 2))
    );
    store.intern_change(&Change::SetTable { table_id: 3, data: vec![Value::U8(1), Value::U8(2)] }).unwrap();
    assert_eq!(store.get_cell(3, 1, 2), Some(Value::U8(2)));
    assert_eq!(
        store.intern_change(&Change::SetColumnKind { table_id: 3, column_ix: 3, kind: ValueKind::U8 }),
        Err(MechErrorKind::LinearSubscriptOutOfBounds(3, 2))
    );
    store.intern_change(&Change::SetColumnKind { table_id: 3, column_ix: 1, kind: ValueKind::Bool }).unwrap();
    assert_eq!(store.get_cell(3, 1, 1), Some(Value::Empty));
    assert_eq!(store.intern_change(&Change::Resize { table_id: 3, rows: 1, columns: 2 }), Ok(vec![]));
}

#[test]
fn the_log_keeps_the_newest_changes() {
    let mut store = Interner::new(2, 10);
    store.intern_change(&Change::NewTable { table_id: 1, rows: 1, columns: 1 }).unwrap();
    store.intern_change(&cells(1, vec![(1, 1, 1)])).unwrap();
    assert_eq!(store.changes.len(), 2);
    store.intern_change(&cells(1, vec![(1, 1, 2)])).unwrap();
    assert_eq!(store.changes.len(), 2);
    assert_eq!(store.rollover, 1);
    assert_eq!(store.change_pointer, 1);
    assert!(matches!(&store.changes[0], Change::SetCells { values, .. } if values[0].2 == Value::U64(2)));
    assert!(matches!(&store.changes[1], Change::SetCells { values, .. } if values[0].2 == Value::U64(1)));
    assert_eq!(store.len(), 3);
    let mut unlogged = Interner::new(0, 10);
    unlogged.intern_change(&Change::NewTable { table_id: 1, rows: 1, columns: 1 }).unwrap();
    assert_eq!(unlogged.changes.len(), 0);
    assert_eq!(unlogged.len(), 1);
}

#[test]
fn transactions_are_built_from_changes() {
    let txn = Transaction::new();
    assert!(!txn.is_complete());
    assert_eq!(txn.changes.len(), 0);
    let one = Transaction::from_change(Change::NewTable { table_id: 1, rows: 1, columns: 1 });
    assert_eq!(one.changes.len(), 1);
    let txn = Transaction::from_adds_removes(vec![(1, 2, 3, 4)], vec![(5, 6, 7, 8)]);
    assert_eq!(txn.changes.len(), 2);
    assert!(matches!(&txn.changes[0], Change::SetCells { table_id: 1, values }
        if values == &vec![(index(2), index(3), Value::U64(4))]));
    assert!(matches!(&txn.changes[1], Change::SetCells { table_id: 5, values }
        if values == &vec![(index(6), index(7), Value::Empty)]));
    let copy = txn.copy();
    assert_eq!(copy.changes.len(), 2);
}

#[test]
fn a_database_keeps_its_transactions() {
    let mut db = Database::new(10, 10);
    let txn = Transaction::from_changeset(vec![
        Change::NewTable { table_id: 1, rows: 1, columns: 1 },
        cells(1, vec![(1, 1, 9)]),
    ]);
    let registers = db.process_transaction(&txn).unwrap();
    assert_eq!(registers.len(), 3);
    assert_eq!(db.transactions.len(), 1);
    assert_eq!(db.processed, 1);
    assert_eq!(db.get(1, &index(1), &index(1)), Some(Value::U64(9)));
    assert_eq!(db.get(1, &index(2), &index(1)), None);
    assert_eq!(db.get(2, &index(1), &index(1)), None);
    assert!(db.get_table(1).is_some());
    assert!(db.get_table(2).is_none());
}

#[test]
fn undoing_restores_what_a_table_held() {
    let mut before = filled(2, 2);
    before.reset_changed();
    let mut after = before.copy();
    after.set(&index(1), &index(1), Value::U64(0));
    after.set(&index(2), &index(2), Value::Bool(true));
    after.set(&index(1), &index(2), Value::U64(12));
    after.set(&index(2), &index(1), Value::U64(5));
    after.set(&index(2), &index(1), Value::U64(21));
    assert!(inverse_of(&before, &Table::new(1, 2, 3)).is_none());
    let undo = inverse_of(&before, &after).unwrap();
    match &undo {
        Change::SetCells { table_id, values } => {
            assert_eq!(*table_id, 1);
            assert_eq!(
                values,
                &vec![
                    (index(1), index(1), Value::U64(11)),
                    (index(2), index(1), Value::U64(21)),
                    (index(2), index(2), Value::U64(22)),
                ]
            );
            for (row, column, value) in values {
                after.set(row, column, *value);
            }
        },
        _ => panic!("the inverse writes cells"),
    }
    after.reset_changed();
    for r in 1..=2 {
        for c in 1..=2 {
            assert_eq!(after.get_unchecked(r, c), before.get_unchecked(r, c));
        }
    }
}

#[test]
fn reference_counts_balance() {
    let mut store = Store::new(4);
    assert_eq!(store.get(0), Some(Value::Empty));
    assert_eq!(store.reference_count(0), usize::MAX);
    assert_eq!(store.intern(Value::Empty), Some(0));
    store.dereference(0);
    assert_eq!(store.reference_count(0), usize::MAX);
    let a = store.intern(Value::U8(1)).unwrap();
    assert_eq!(a, 1);
    assert_eq!(store.intern(Value::U8(1)), Some(1));
    assert_eq!(store.intern(Value::U8(1)), Some(1));
    assert_eq!(store.reference_count(1), 3);
    store.dereference(1);
    assert_eq!(store.reference_count(1), 2);
    assert_eq!(store.intern(Value::U8(2)), Some(2));
    assert_eq!(store.intern(Value::U8(3)), Some(3));
    assert_eq!(store.intern(Value::U8(4)), None);
    store.dereference(3);
    store.dereference(2);
    assert_eq!(store.reference_count(3), 0);
    store.dereference(3);
    assert_eq!(store.reference_count(3), 0);
    assert_eq!(store.intern(Value::U8(4)), Some(3));
    assert_eq!(store.get(3), Some(Value::U8(4)));
    assert_eq!(store.intern(Value::U8(5)), Some(2));
    assert_eq!(store.intern(Value::U8(6)), None);
    assert_eq!(store.reference_count(9), 0);
    assert_eq!(store.get(9), None);
    store.dereference(9);
}

#[test]
fn watched_tables_are_flagged_when_a_transaction_changes_them() {
    let mut db = Database::new(2, 10);
    assert_eq!(db.watched_flag(1), None);
    db.register_watcher(1);
    db.register_watcher(3);
    db.register_watcher(1);
    assert_eq!(db.watched, vec![(1, false), (3, false)]);
    let made = Transaction::from_changeset(vec![
        Change::NewTable { table_id: 1, rows: 1, columns: 1 },
        Change::NewTable { table_id: 2, rows: 1, columns: 1 },
        Change::NewTable { table_id: 3, rows: 1, columns: 1 },
    ]);
    db.process_transaction(&made).unwrap();
    assert_eq!(db.watched, vec![(1, true), (3, true)]);
    assert_eq!((db.processed, db.epoch, db.store.len()), (1, 1, 3));
    db.register_watcher(1);
    assert_eq!(db.watched_flag(1), Some(false));
    assert_eq!(db.watched_flag(3), Some(true));
    assert_eq!(db.watched_flag(2), None);
    let writes = Transaction::from_changeset(vec![cells(2, vec![(1, 1, 5)])]);
    db.process_transaction(&writes).unwrap();
    assert_eq!(db.watched, vec![(1, false), (3, true)]);
    let failing = Transaction::from_changeset(vec![cells(1, vec![(1, 1, 5)]), cells(9, vec![(1, 1, 5)])]);
    assert!(db.process_transaction(&failing).is_err());
    assert_eq!(db.get(1, &index(1), &index(1)), Some(Value::U64(5)));
    assert_eq!(db.watched, vec![(1, false), (3, true)]);
    assert_eq!((db.processed, db.store.len(), db.store.rollover), (3, 6, 2));
    assert_eq!(db.epoch, 2);
    let again = Transaction::from_changeset(vec![cells(1, vec![(1, 1, 6)])]);
    db.process_transaction(&again).unwrap();
    assert_eq!(db.watched_flag(1), Some(true));
    db.mark_watched(&vec![ColumnRegister { table: 3, column: 0 }, ColumnRegister { table: 4, column: 1 }]);
    assert_eq!(db.watched, vec![(1, true), (3, true)]);
}
