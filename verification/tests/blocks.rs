use mech_core::block::{Block, BlockState, Functions, MechFunction, Register, RegisterSet, Transformation};
use mech_core::database::{Change, Interner, Transaction};
use mech_core::error::{MechError, MechErrorKind};
use mech_core::mech::{rebuild, Core};
use mech_core::runtime::{Address, Register as ColumnRegister, Runtime, MAX_ITER};
use mech_core::solver::{resize_one, Resolved, StepResult};
use mech_core::{hash_str, make_quantity, Table, TableId, TableIndex, Value};

fn index(k: usize) -> TableIndex {
    TableIndex::Index(k)
}

fn whole(table_id: TableId) -> Register {
    Register { table_id, row: TableIndex::All, column: TableIndex::All }
}

fn local(id: u64) -> (u64, TableId, TableIndex, TableIndex) {
    (0, TableId::Local(id), TableIndex::All, TableIndex::All)
}

fn global(id: u64) -> (u64, TableId, TableIndex, TableIndex) {
    (0, TableId::Global(id), TableIndex::All, TableIndex::All)
}

fn block_of(steps: Vec<Transformation>) -> Block {
    let mut block = Block::new(16);
    block.register_transformations(("".to_string(), steps));
    block
}

fn store_with(table_id: u64, rows: usize, columns: usize, values: &[u64]) -> Interner {
    let mut store = Interner::new(10, 10);
    store.intern_change(&Change::NewTable { table_id, rows, columns }).unwrap();
    store
        .intern_change(&Change::SetTable {
            table_id,
            data: values.iter().map(|v| Value::U64(*v)).collect(),
        })
        .unwrap();
    store
}

#[test]
fn a_block_is_named_by_its_transformations() {
    let steps = || {
        vec![
            Transformation::NewTable { table_id: TableId::Local(1), rows: 1, columns: 1 },
            Transformation::Constant { table_id: TableId::Local(1), value: Value::U8(1), unit: 0 },
        ]
    };
    let mut a = block_of(steps());
    let mut b = block_of(steps());
    a.gen_id();
    b.gen_id();
    assert_eq!(a.id, b.id);
    assert_eq!(a.id, hash_str(&format!("{:?}", a.transformations)));
    let mut c = block_of(vec![]);
    c.gen_id();
    assert_ne!(a.id, c.id);
}

#[test]
fn registering_sorts_tables_and_registers() {
    let g = TableId::Global(10);
    let block = block_of(vec![
        Transformation::NewTable { table_id: g, rows: 2, columns: 2 },
        Transformation::NewTable { table_id: TableId::Local(1), rows: 1, columns: 2 },
        Transformation::ColumnAlias { table_id: g, column_ix: 1, column_alias: 5 },
        Transformation::ColumnAlias { table_id: TableId::Local(1), column_ix: 2, column_alias: 6 },
        Transformation::Constant { table_id: g, value: Value::U8(1), unit: 0 },
        Transformation::Constant { table_id: TableId::Local(1), value: Value::U8(2), unit: 0 },
        Transformation::SetRegister { table_id: g, row: index(1), column: index(1) },
        Transformation::Function {
            name: 1,
            arguments: vec![
                (0, TableId::Global(20), TableIndex::Table(TableId::Local(1)), TableIndex::Absent),
                (0, TableId::Global(20), TableIndex::All, TableIndex::All),
                local(1),
                (0, TableId::Global(20), index(2), TableIndex::Alias(3)),
            ],
            out: (g, TableIndex::Table(TableId::Local(1)), index(1)),
        },
        Transformation::RowAlias { table_id: g, row_ix: 1, row_alias: 1 },
    ]);
    assert_eq!(block.changes.len(), 3);
    assert!(matches!(block.changes[0], Change::NewTable { table_id: 10, rows: 2, columns: 2 }));
    assert!(matches!(block.changes[1], Change::SetColumnAlias { table_id: 10, column_ix: 1, column_alias: 5 }));
    assert!(matches!(&block.changes[2], Change::SetCells { table_id: 10, values }
        if values == &vec![(index(1), index(1), Value::U8(1))]));
    let t = block.tables.get(1).unwrap();
    assert_eq!(t.get_unchecked(1, 1).0, Value::U8(2));
    assert_eq!(t.get_column_alias(2), Some(TableIndex::Alias(6)));
    assert_eq!(
        block.output.items,
        vec![
            whole(g),
            Register { table_id: g, row: TableIndex::All, column: TableIndex::Alias(5) },
            Register { table_id: g, row: TableIndex::All, column: index(1) },
        ]
    );
    assert_eq!(block.output_dependencies.items, vec![whole(g)]);
    assert_eq!(block.output_dependencies_ready, vec![false]);
    assert_eq!(
        block.input.items,
        vec![
            whole(TableId::Global(20)),
            Register { table_id: TableId::Global(20), row: index(2), column: TableIndex::Alias(3) },
        ]
    );
    assert_eq!(block.ready, vec![false, false]);
    assert_eq!(block.plan, vec![(0, 7)]);
    assert_eq!(block.errors.len(), 0);
    assert_eq!(block.transformations.len(), 1);
}

#[test]
fn registering_reports_what_cannot_be_done() {
    let block = block_of(vec![
        Transformation::Constant { table_id: TableId::Local(1), value: Value::U8(2), unit: 0 },
        Transformation::ColumnAlias { table_id: TableId::Local(1), column_ix: 1, column_alias: 6 },
        Transformation::NewTable { table_id: TableId::Local(2), rows: usize::MAX, columns: 2 },
        Transformation::NewTable { table_id: TableId::Local(3), rows: 1, columns: 2 },
        Transformation::ColumnAlias { table_id: TableId::Local(3), column_ix: 1, column_alias: 6 },
        Transformation::ColumnAlias { table_id: TableId::Local(3), column_ix: 2, column_alias: 6 },
        Transformation::ColumnAlias { table_id: TableId::Local(3), column_ix: 3, column_alias: 7 },
    ]);
    let kinds: Vec<MechErrorKind> = block.errors.iter().map(|e| e.kind.clone()).collect();
    assert_eq!(
        kinds,
        vec![
            MechErrorKind::MissingTable(TableId::Local(1)),
            MechErrorKind::MissingTable(TableId::Local(1)),
            MechErrorKind::UnhandledTableShape(mech_core::TableShape::Matrix(usize::MAX, 2)),
            MechErrorKind::DuplicateAlias(6),
            MechErrorKind::LinearSubscriptOutOfBounds(3, 2),
        ]
    );
    let mut block = block;
    assert!(!block.is_ready());
    assert_eq!(block.state, BlockState::Error);
}

#[test]
fn constants_with_units_become_quantities() {
    let block = block_of(vec![
        Transformation::NewTable { table_id: TableId::Local(1), rows: 1, columns: 1 },
        Transformation::Constant { table_id: TableId::Local(1), value: Value::U64(5), unit: hash_str("kg") },
        Transformation::NewTable { table_id: TableId::Local(2), rows: 1, columns: 1 },
        Transformation::Constant { table_id: TableId::Local(2), value: Value::I8(5), unit: hash_str("g") },
        Transformation::NewTable { table_id: TableId::Local(3), rows: 1, columns: 1 },
        Transformation::Constant { table_id: TableId::Local(3), value: Value::Bool(true), unit: hash_str("g") },
        Transformation::NewTable { table_id: TableId::Local(4), rows: 1, columns: 1 },
        Transformation::Constant { table_id: TableId::Local(4), value: Value::U64(5), unit: hash_str("m") },
    ]);
    let first = |id: u64| block.tables.get(id).unwrap().get_unchecked(1, 1).0;
    assert_eq!(first(1), Value::Quantity(make_quantity(5, 3, 1)));
    assert_eq!(first(2), Value::Quantity(make_quantity(5, 0, 1)));
    assert_eq!(first(3), Value::Bool(true));
    assert_eq!(first(4), Value::U64(5));
}

#[test]
fn readiness() {
    let mut block = Block::new(16);
    assert!(block.is_ready());
    assert_eq!(block.state, BlockState::Ready);
    block.add_input(whole(TableId::Global(1)));
    block.add_input(whole(TableId::Global(1)));
    block.add_output_dependency(whole(TableId::Global(2)));
    assert_eq!(block.input.len(), 1);
    block.state = BlockState::New;
    assert!(!block.is_ready());
    assert_eq!(block.state, BlockState::New);
    block.wake(&ColumnRegister { table: 1, column: 3 }, &vec![]);
    assert_eq!(block.ready, vec![true]);
    assert!(!block.is_ready());
    block.wake(&ColumnRegister { table: 2, column: 0 }, &vec![]);
    assert!(block.is_ready());
    block.state = BlockState::Disabled;
    assert!(!block.is_ready());
    assert_eq!(block.state, BlockState::Disabled);
    block.state = BlockState::New;
    block.fail(7, MechErrorKind::ZeroIndex);
    assert!(!block.is_ready());
    assert_eq!(block.state, BlockState::Error);
    assert_eq!(block.errors, vec![MechError { id: 7, kind: MechErrorKind::ZeroIndex }]);
}

#[test]
fn changes_wake_what_they_reach() {
    let t = TableId::Global(1);
    let mut block = Block::new(16);
    block.add_input(Register { table_id: t, row: index(4), column: index(2) });
    block.add_input(Register { table_id: t, row: TableIndex::All, column: TableIndex::Alias(9) });
    block.add_input(whole(t));
    block.add_input(whole(TableId::Global(2)));
    block.add_input(whole(TableId::Local(3)));
    block.add_input(Register { table_id: t, row: index(3), column: TableIndex::Absent });
    block.state = BlockState::Done;
    let aliases = vec![None, None, Some(9)];
    block.wake(&ColumnRegister { table: 5, column: 0 }, &aliases);
    assert_eq!(block.ready, vec![false; 6]);
    assert_eq!(block.state, BlockState::Done);
    block.wake(&ColumnRegister { table: 1, column: 3 }, &aliases);
    assert_eq!(block.ready, vec![false, true, true, false, false, true]);
    assert_eq!(block.state, BlockState::New);
    block.wake(&ColumnRegister { table: 1, column: 0 }, &aliases);
    assert_eq!(block.ready, vec![true, true, true, false, false, true]);

    let mut runtime = Runtime::new();
    let store = Interner::new(1, 1);
    let mut first = Block::new(16);
    first.add_input(whole(TableId::Global(2)));
    let mut second = Block::new(16);
    second.add_input(whole(TableId::Global(1)));
    second.add_input(Register { table_id: t, row: TableIndex::All, column: index(2) });
    second.add_input(Register { table_id: t, row: TableIndex::All, column: index(1) });
    runtime.blocks.push(first);
    runtime.blocks.push(second);
    assert_eq!(
        runtime.subscribers(&ColumnRegister { table: 1, column: 1 }, &store),
        vec![Address { block: 2, register: 1 }, Address { block: 2, register: 3 }]
    );
    runtime.process_change(&ColumnRegister { table: 1, column: 1 }, &store);
    assert_eq!(runtime.blocks[0].ready, vec![false]);
    assert_eq!(runtime.blocks[1].ready, vec![true, false, true]);
}

#[test]
fn register_sets_tell_registers_apart_by_their_keys() {
    let mut set = RegisterSet::new();
    let a = whole(TableId::Global(1));
    let b = Register { table_id: TableId::Global(1), row: index(1), column: TableIndex::All };
    assert!(set.insert(a));
    assert!(!set.insert(a));
    assert!(set.insert(b));
    assert!(!set.insert(whole(TableId::Local(1))));
    assert_eq!(set.len(), 2);
    assert!(set.contains(&b));
    assert_eq!(set.position(&b), Some(1));
    assert_eq!(set.position(&whole(TableId::Global(2))), None);
    assert!(!set.contains(&whole(TableId::Global(2))));
}

#[test]
fn the_standard_library_knows_its_operators() {
    let library = Functions::load_standard_library();
    assert_eq!(library.get(hash_str("math/add")), Some(MechFunction::MathAdd));
    assert_eq!(library.get(hash_str("table/split")), Some(MechFunction::TableSplit));
    assert_eq!(library.get(hash_str("compare/less-than-equal")), Some(MechFunction::CompareLessThanEqual));
    assert_eq!(library.get(hash_str("math/cube")), None);
    let mut functions = Functions::new();
    assert_eq!(functions.list.len(), 0);
    assert_eq!(functions.get(1), None);
    functions.register(1, MechFunction::SetAny);
    functions.register(1, MechFunction::StatsSum);
    assert_eq!(functions.get(1), Some(MechFunction::StatsSum));
}

#[test]
fn solving_writes_local_tables_and_queues_global_changes() {
    let store = store_with(7, 2, 1, &[1, 2]);
    let functions = Functions::load_standard_library();
    let mut block = block_of(vec![
        Transformation::NewTable { table_id: TableId::Local(1), rows: 0, columns: 0 },
        Transformation::Function { name: hash_str("math/add"), arguments: vec![global(7), global(7)], out: local(1).into_out() },
        Transformation::Function {
            name: hash_str("table/copy"),
            arguments: vec![local(1)],
            out: (TableId::Global(7), TableIndex::All, TableIndex::All),
        },
    ]);
    block.solve(&store, &functions);
    assert_eq!(block.state, BlockState::Done);
    assert_eq!(block.triggered, 1);
    let t = block.tables.get(1).unwrap();
    assert_eq!(mech_core::index::table_values(t), vec![Value::U64(2), Value::U64(4)]);
    assert_eq!(store.get_cell(7, 2, 1), Some(Value::U64(2)));
    assert_eq!(block.changes.len(), 3);
    assert!(matches!(block.changes[0], Change::Resize { table_id: 7, rows: 2, columns: 1 }));
    assert!(matches!(
        block.changes[1],
        Change::SetColumnKind { table_id: 7, column_ix: 1, kind: mech_core::ValueKind::U64 }
    ));
    assert!(matches!(&block.changes[2], Change::SetCells { table_id: 7, values }
        if values == &vec![(index(1), index(1), Value::U64(2)), (index(2), index(1), Value::U64(4))]));
    let mut store = store;
    let registers = block.process_changes(&mut store).unwrap();
    assert_eq!(block.changes.len(), 0);
    assert_eq!(store.get_cell(7, 2, 1), Some(Value::U64(4)));
    assert_eq!(registers.len(), 3);
}

trait IntoOut {
    fn into_out(self) -> (TableId, TableIndex, TableIndex);
}

impl IntoOut for (u64, TableId, TableIndex, TableIndex) {
    fn into_out(self) -> (TableId, TableIndex, TableIndex) {
        (self.1, self.2, self.3)
    }
}

#[test]
fn solving_stops_at_what_is_missing_or_wrong() {
    let store = store_with(7, 2, 1, &[1, 2]);
    let functions = Functions::load_standard_library();
    let add = |arguments, out: (u64, TableId, TableIndex, TableIndex)| Transformation::Function {
        name: hash_str("math/add"),
        arguments,
        out: out.into_out(),
    };
    let mut pending = block_of(vec![add(vec![global(8), global(7)], local(1))]);
    pending.solve(&store, &functions);
    assert_eq!(pending.state, BlockState::Unsatisfied);
    assert_eq!(pending.pending, Some(TableId::Global(8)));
    let mut no_output = block_of(vec![add(vec![global(7), global(7)], local(1))]);
    no_output.solve(&store, &functions);
    assert_eq!(no_output.pending, Some(TableId::Local(1)));
    let mut no_keys = block_of(vec![add(
        vec![(0, TableId::Global(7), TableIndex::Table(TableId::Local(3)), index(1)), global(7)],
        global(7),
    )]);
    no_keys.solve(&store, &functions);
    assert_eq!(no_keys.pending, Some(TableId::Local(3)));
    let mut wrong = block_of(vec![
        add(vec![(0, TableId::Global(7), index(3), index(1)), global(7)], global(7)),
        add(vec![global(7), global(7)], global(7)),
    ]);
    wrong.solve(&store, &functions);
    assert_eq!(wrong.state, BlockState::Error);
    assert_eq!(
        wrong.errors,
        vec![MechError { id: hash_str("math/add"), kind: MechErrorKind::LinearSubscriptOutOfBounds(3, 2) }]
    );
    assert_eq!(wrong.changes.len(), 0);
    assert!(matches!(
        wrong.resolve(&store, TableId::Global(7), index(0), index(1)),
        Resolved::Failed(MechErrorKind::ZeroIndex)
    ));
    assert!(matches!(
        wrong.function_step(&store, &functions, 1, &vec![], (TableId::Global(7), index(1), index(1))),
        StepResult::Failed(1, MechErrorKind::MissingFunction(1))
    ));
}

#[test]
fn split_makes_a_table_of_each_row() {
    let mut store = store_with(7, 2, 2, &[1, 2, 3, 4]);
    store.intern_change(&Change::SetColumnAlias { table_id: 7, column_ix: 2, column_alias: 99 }).unwrap();
    let functions = Functions::load_standard_library();
    let mut block = block_of(vec![
        Transformation::NewTable { table_id: TableId::Local(1), rows: 0, columns: 0 },
        Transformation::Function { name: hash_str("table/split"), arguments: vec![global(7)], out: local(1).into_out() },
    ]);
    block.solve(&store, &functions);
    assert_eq!(block.state, BlockState::Done);
    let first = Register::new(TableId::Global(7), index(1), TableIndex::All).hash();
    let second = Register::new(TableId::Global(7), index(2), TableIndex::All).hash();
    let out = block.tables.get(1).unwrap();
    assert_eq!(
        mech_core::index::table_values(out),
        vec![Value::Reference(TableId::Global(first)), Value::Reference(TableId::Global(second))]
    );
    assert_eq!(block.changes.len(), 6);
    block.process_changes(&mut store).unwrap();
    let row = store.tables.get(second).unwrap();
    assert_eq!((row.rows, row.cols), (1, 2));
    assert_eq!(mech_core::index::table_values(row), vec![Value::U64(3), Value::U64(4)]);
    assert_eq!(row.get_column_alias(2), Some(TableIndex::Alias(99)));
    assert_eq!(row.get_column_alias(1), None);
}

#[test]
fn selections_and_references_fill_their_tables() {
    let store = store_with(7, 2, 2, &[1, 2, 3, 4]);
    let functions = Functions::load_standard_library();
    let mut block = block_of(vec![
        Transformation::NewTable { table_id: TableId::Local(1), rows: 0, columns: 0 },
        Transformation::NewTable { table_id: TableId::Local(2), rows: 3, columns: 3 },
        Transformation::Select {
            table_id: TableId::Global(7),
            row: TableIndex::All,
            column: TableIndex::All,
            indices: vec![(TableIndex::All, TableIndex::All), (index(2), TableIndex::All)],
            out: TableId::Local(1),
        },
        Transformation::TableReference { table_id: TableId::Local(2), reference: Value::from_id(7) },
    ]);
    block.solve(&store, &functions);
    assert_eq!(block.state, BlockState::Done);
    let selected = block.tables.get(1).unwrap();
    assert_eq!((selected.rows, selected.cols), (1, 2));
    assert_eq!(mech_core::index::table_values(selected), vec![Value::U64(3), Value::U64(4)]);
    let reference = block.tables.get(2).unwrap();
    assert_eq!((reference.rows, reference.cols), (1, 1));
    assert_eq!(reference.get_reference(&index(1), &index(1)), Some(7));
    let mut failing = block_of(vec![Transformation::Select {
        table_id: TableId::Global(7),
        row: TableIndex::All,
        column: TableIndex::All,
        indices: vec![(index(9), TableIndex::All), (index(2), TableIndex::All)],
        out: TableId::Local(1),
    }]);
    failing.solve(&store, &functions);
    assert_eq!(failing.state, BlockState::Error);
    assert_eq!(failing.errors[0].kind, MechErrorKind::LinearSubscriptOutOfBounds(9, 2));
}

#[test]
fn a_block_that_watches_runs_only_on_change() {
    let mut store = store_with(7, 1, 1, &[1]);
    store.tables.take(7).map(|mut t| {
        t.reset_changed();
        store.tables.put(t);
    });
    let functions = Functions::load_standard_library();
    let watched = whole(TableId::Global(7));
    let mut block = block_of(vec![
        Transformation::NewTable { table_id: TableId::Local(1), rows: 0, columns: 0 },
        Transformation::Whenever {
            table_id: TableId::Global(7),
            row: TableIndex::All,
            column: TableIndex::All,
            registers: vec![watched],
        },
        Transformation::Function { name: hash_str("table/copy"), arguments: vec![global(7)], out: local(1).into_out() },
    ]);
    assert_eq!(block.watching.items, vec![watched]);
    block.prime(&store);
    assert_eq!(block.ready, vec![false]);
    block.ready[0] = true;
    block.solve(&store, &functions);
    assert_eq!(block.tables.get(1).unwrap().rows, 1);
    assert_eq!(block.ready, vec![false]);
    block.tables.take(1).map(|mut t| {
        t.clear();
        block.tables.put(t);
    });
    block.ready[0] = true;
    block.solve(&store, &functions);
    assert_eq!(block.state, BlockState::Done);
    assert_eq!(block.tables.get(1).unwrap().rows, 0);
    assert_eq!(block.ready, vec![true]);
    assert_eq!(block.triggered, 2);
    let mut nothing = block_of(vec![Transformation::Whenever {
        table_id: TableId::Global(7),
        row: TableIndex::All,
        column: TableIndex::All,
        registers: vec![],
    }]);
    assert!(matches!(nothing.whenever_step(&store, TableId::Global(7), &vec![]), StepResult::Abort));
}

#[test]
fn the_core_answers_for_what_it_holds() {
    let mut core = Core::new(4, 4);
    assert_eq!(core.database.store.capacity, 4);
    assert_eq!(Core::new(9, 0).database.store.capacity, 9);
    assert_eq!((core.database.epoch, core.database.processed), (0, 0));
    assert_eq!(core.get(1, &index(1), &index(1)), None);
    let failing = Transaction::from_change(Change::Resize { table_id: 1, rows: 1, columns: 1 });
    let error = core.process_transaction(&failing).unwrap_err();
    assert_eq!(error.kind, MechErrorKind::MissingTable(TableId::Global(1)));
    assert_eq!(core.position, 1);
    core.step_back(5);
    assert_eq!(core.position, 0);
    assert!(core.step());
    assert!(!core.step());
    assert_eq!(MAX_ITER, 10000);
    let block = rebuild(vec![
        ("a".to_string(), vec![Transformation::NewTable { table_id: TableId::Local(1), rows: 1, columns: 1 }]),
        ("b".to_string(), vec![Transformation::TableReference { table_id: TableId::Local(1), reference: Value::from_id(2) }]),
    ]);
    assert_eq!(block.transformations.len(), 2);
    assert_eq!(block.plan, vec![(1, 0)]);
    let table: &Table = block.tables.get(1).unwrap();
    assert_eq!(table.rows, 1);
}

#[test]
fn an_output_is_brought_to_one_cell() {
    let store = store_with(7, 2, 2, &[1, 2, 3, 4]);
    let mut block = block_of(vec![Transformation::NewTable { table_id: TableId::Local(1), rows: 2, columns: 3 }]);
    block.tables.take(1).map(|mut t| {
        t.set_unchecked(1, 1, Value::U64(5));
        t.set_unchecked(2, 3, Value::U64(6));
        block.tables.put(t);
    });
    assert_eq!(resize_one(&mut block, &store, &local(1).into_out()), Ok(()));
    let t = block.tables.get(1).unwrap();
    assert_eq!((t.rows, t.cols), (1, 1));
    assert_eq!(t.get_unchecked(1, 1).0, Value::U64(5));
    assert_eq!(block.changes.len(), 0);
    assert_eq!(resize_one(&mut block, &store, &global(7).into_out()), Ok(()));
    assert_eq!(block.changes.len(), 2);
    assert!(matches!(block.changes[0], Change::Resize { table_id: 7, rows: 1, columns: 1 }));
    assert!(matches!(&block.changes[1], Change::SetCells { table_id: 7, values } if values.is_empty()));
    assert_eq!(
        resize_one(&mut block, &store, &local(5).into_out()),
        Err(MechError { id: block.id, kind: MechErrorKind::MissingTable(TableId::Local(5)) })
    );
    assert_eq!(
        resize_one(&mut block, &store, &global(8).into_out()),
        Err(MechError { id: block.id, kind: MechErrorKind::MissingTable(TableId::Global(8)) })
    );
    assert_eq!(block.changes.len(), 2);
}

#[test]
fn a_global_result_without_rows_has_its_kinds_queued() {
    let mut store = Interner::new(10, 10);
    store.intern_change(&Change::NewTable { table_id: 7, rows: 0, columns: 1 }).unwrap();
    store.intern_change(&Change::NewTable { table_id: 8, rows: 3, columns: 3 }).unwrap();
    let first = store
        .intern_change(&Change::SetColumnKind { table_id: 7, column_ix: 1, kind: mech_core::ValueKind::U8 })
        .unwrap();
    assert_eq!(first, vec![ColumnRegister { table: 7, column: 0 }]);
    let again = store
        .intern_change(&Change::SetColumnKind { table_id: 7, column_ix: 1, kind: mech_core::ValueKind::U8 })
        .unwrap();
    assert_eq!(again, vec![]);
    let functions = Functions::load_standard_library();
    let mut block = block_of(vec![Transformation::Function {
        name: hash_str("compare/equal"),
        arguments: vec![global(7), global(7)],
        out: global(8).into_out(),
    }]);
    block.solve(&store, &functions);
    assert_eq!(block.state, BlockState::Done);
    assert_eq!(block.changes.len(), 3);
    assert!(matches!(block.changes[0], Change::Resize { table_id: 8, rows: 0, columns: 1 }));
    assert!(matches!(
        block.changes[1],
        Change::SetColumnKind { table_id: 8, column_ix: 1, kind: mech_core::ValueKind::Bool }
    ));
    assert!(matches!(&block.changes[2], Change::SetCells { table_id: 8, values } if values.is_empty()));
    block.process_changes(&mut store).unwrap();
    let out = store.tables.get(8).unwrap();
    assert_eq!((out.rows, out.cols), (0, 1));
    assert_eq!(out.columns[0].kind, mech_core::ValueKind::Bool);
}

#[test]
fn a_block_keeps_its_text_and_its_name() {
    let mut core = Core::new(8, 8);
    let mut block = block_of(vec![
        Transformation::NewTable { table_id: TableId::Global(1), rows: 1, columns: 1 },
        Transformation::Constant { table_id: TableId::Global(1), value: Value::U64(7), unit: 0 },
    ]);
    block.text = "#x = 7".to_string();
    block.name = "seven".to_string();
    block.gen_id();
    assert_eq!((block.text.as_str(), block.name.as_str()), ("#x = 7", "seven"));
    assert!(block.is_ready());
    assert_eq!((block.text.as_str(), block.name.as_str()), ("#x = 7", "seven"));
    block.state = BlockState::New;
    let id = core.register_block(block).unwrap();
    assert_eq!(core.get(1, &index(1), &index(1)), Some(Value::U64(7)));
    let write = Transaction::from_change(Change::SetCells {
        table_id: 1,
        values: vec![(index(1), index(1), Value::U64(8))],
    });
    core.process_transaction(&write).unwrap();
    assert_eq!(core.get(1, &index(1), &index(1)), Some(Value::U64(8)));
    core.step_back(1);
    assert_eq!(core.get(1, &index(1), &index(1)), Some(Value::U64(7)));
    let kept = &core.runtime.blocks[0];
    assert_eq!((kept.text.as_str(), kept.name.as_str()), ("#x = 7", "seven"));
    assert_eq!(kept.id, id);
}
