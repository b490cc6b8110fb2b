use mech_core::block::{Block, BlockState, Register, Transformation};
use mech_core::database::{Change, Transaction};
use mech_core::error::MechErrorKind;
use mech_core::mech::Core;
use mech_core::{hash_str, TableId, TableIndex, Value, ValueKind};

fn index(k: usize) -> TableIndex {
    TableIndex::Index(k)
}

fn cell(row: usize, column: usize, value: u64) -> (TableIndex, TableIndex, Value) {
    (index(row), index(column), Value::U64(value))
}

fn new_core() -> Core {
    let mut core = Core::new(100, 100);
    core.load_standard_library();
    core
}

/// The tables of the ball that falls: `#ball`, `#gravity` and the timer.
fn ball_tables() -> Transaction {
    let ball = hash_str("ball");
    let gravity = hash_str("gravity");
    let timer = hash_str("time/timer");
    Transaction::from_changeset(vec![
        Change::NewTable { table_id: ball, rows: 1, columns: 4 },
        Change::SetColumnAlias { table_id: ball, column_ix: 1, column_alias: hash_str("x") },
        Change::SetColumnAlias { table_id: ball, column_ix: 2, column_alias: hash_str("y") },
        Change::SetColumnAlias { table_id: ball, column_ix: 3, column_alias: hash_str("vx") },
        Change::SetColumnAlias { table_id: ball, column_ix: 4, column_alias: hash_str("vy") },
        Change::SetCells {
            table_id: ball,
            values: vec![cell(1, 1, 0), cell(1, 2, 0), cell(1, 3, 3), cell(1, 4, 4)],
        },
        Change::NewTable { table_id: gravity, rows: 1, columns: 1 },
        Change::SetCells { table_id: gravity, values: vec![cell(1, 1, 9)] },
        Change::NewTable { table_id: timer, rows: 1, columns: 2 },
        Change::SetColumnAlias { table_id: timer, column_ix: 1, column_alias: hash_str("period") },
        Change::SetColumnAlias { table_id: timer, column_ix: 2, column_alias: hash_str("ticks") },
        Change::SetCells { table_id: timer, values: vec![cell(1, 1, 16), cell(1, 2, 0)] },
    ])
}

fn ball_column(name: &str) -> (u64, TableId, TableIndex, TableIndex) {
    (0, TableId::Global(hash_str("ball")), TableIndex::All, TableIndex::Alias(hash_str(name)))
}

/// `#ball.target := #ball.left + right`, by way of a local table.
fn update(target: &str, left: &str, right: (u64, TableId, TableIndex, TableIndex), scratch: u64) -> Vec<Transformation> {
    vec![
        Transformation::NewTable { table_id: TableId::Local(scratch), rows: 1, columns: 1 },
        Transformation::Function {
            name: hash_str("math/add"),
            arguments: vec![ball_column(left), right],
            out: (TableId::Local(scratch), TableIndex::All, TableIndex::All),
        },
        Transformation::Function {
            name: hash_str("table/set"),
            arguments: vec![(0, TableId::Local(scratch), TableIndex::All, TableIndex::All)],
            out: (
                TableId::Global(hash_str("ball")),
                TableIndex::All,
                TableIndex::Alias(hash_str(target)),
            ),
        },
    ]
}

fn ball_block() -> Block {
    let timer = TableId::Global(hash_str("time/timer"));
    let ticks = TableIndex::Alias(hash_str("ticks"));
    let mut steps = vec![Transformation::Whenever {
        table_id: timer,
        row: TableIndex::All,
        column: ticks,
        registers: vec![Register { table_id: timer, row: TableIndex::All, column: ticks }],
    }];
    steps.extend(update("x", "x", ball_column("vx"), 1));
    steps.extend(update("y", "y", ball_column("vy"), 2));
    steps.extend(update(
        "vy",
        "vy",
        (0, TableId::Global(hash_str("gravity")), TableIndex::All, TableIndex::All),
        3,
    ));
    let mut block = Block::new(16);
    block.register_transformations(("~ #time/timer.ticks".to_string(), steps));
    block
}

fn tick(n: u64) -> Transaction {
    Transaction::from_changeset(vec![Change::SetCells {
        table_id: hash_str("time/timer"),
        values: vec![(index(1), TableIndex::Alias(hash_str("ticks")), Value::U64(n))],
    }])
}

fn ball(core: &Core) -> Vec<Option<Value>> {
    (1..=4).map(|c| core.get(hash_str("ball"), &index(1), &index(c))).collect()
}

fn row(values: [u64; 4]) -> Vec<Option<Value>> {
    values.iter().map(|v| Some(Value::U64(*v))).collect()
}

#[test]
fn ballistic_update_loop() {
    let mut core = new_core();
    core.process_transaction(&ball_tables()).unwrap();
    core.register_block(ball_block()).unwrap();
    assert_eq!(ball(&core), row([0, 0, 3, 4]));
    core.process_transaction(&tick(1)).unwrap();
    assert_eq!(ball(&core), row([3, 4, 3, 13]));
    assert_eq!(core.runtime.blocks[0].triggered, 1);
    core.process_transaction(&tick(2)).unwrap();
    assert_eq!(ball(&core), row([6, 17, 3, 22]));
}

#[test]
fn a_tick_that_changes_nothing_does_not_fire() {
    let mut core = new_core();
    core.process_transaction(&ball_tables()).unwrap();
    core.register_block(ball_block()).unwrap();
    core.process_transaction(&tick(0)).unwrap();
    assert_eq!(ball(&core), row([0, 0, 3, 4]));
    assert_eq!(core.runtime.blocks[0].triggered, 0);
}

fn compare_block() -> Block {
    let a = TableId::Global(hash_str("a"));
    let x = TableIndex::Alias(hash_str("x"));
    let mut block = Block::new(16);
    block.register_transformations((
        "#b := #a.x > 1".to_string(),
        vec![
            Transformation::Whenever {
                table_id: a,
                row: TableIndex::All,
                column: x,
                registers: vec![Register { table_id: a, row: TableIndex::All, column: x }],
            },
            Transformation::NewTable { table_id: TableId::Global(hash_str("b")), rows: 0, columns: 0 },
            Transformation::NewTable { table_id: TableId::Local(1), rows: 1, columns: 1 },
            Transformation::Constant { table_id: TableId::Local(1), value: Value::U64(1), unit: 0 },
            Transformation::Function {
                name: hash_str("compare/greater-than"),
                arguments: vec![
                    (0, a, TableIndex::All, x),
                    (0, TableId::Local(1), TableIndex::All, TableIndex::All),
                ],
                out: (TableId::Global(hash_str("b")), TableIndex::All, TableIndex::All),
            },
        ],
    ));
    block
}

fn table_a() -> Transaction {
    let a = hash_str("a");
    Transaction::from_changeset(vec![
        Change::NewTable { table_id: a, rows: 3, columns: 1 },
        Change::SetColumnAlias { table_id: a, column_ix: 1, column_alias: hash_str("x") },
        Change::SetCells { table_id: a, values: vec![cell(1, 1, 1), cell(2, 1, 2), cell(3, 1, 3)] },
    ])
}

#[test]
fn broadcast_compare() {
    let mut core = new_core();
    core.register_block(compare_block()).unwrap();
    assert_eq!(core.runtime.blocks[0].state, BlockState::Unsatisfied);
    core.process_transaction(&table_a()).unwrap();
    assert_eq!(core.runtime.blocks[0].state, BlockState::Done);
    let b = hash_str("b");
    assert_eq!(core.get(b, &index(1), &index(1)), Some(Value::Bool(false)));
    assert_eq!(core.get(b, &index(2), &index(1)), Some(Value::Bool(true)));
    assert_eq!(core.get(b, &index(3), &index(1)), Some(Value::Bool(true)));
    assert_eq!(core.get(b, &index(4), &index(1)), None);
}

fn constant(id: u64, value: u64) -> Vec<Transformation> {
    vec![
        Transformation::NewTable { table_id: TableId::Local(id), rows: 1, columns: 1 },
        Transformation::Constant { table_id: TableId::Local(id), value: Value::U64(value), unit: 0 },
    ]
}

fn local(id: u64) -> (u64, TableId, TableIndex, TableIndex) {
    (0, TableId::Local(id), TableIndex::All, TableIndex::All)
}

#[test]
fn range_of_one_to_five() {
    let mut core = new_core();
    let r = hash_str("r");
    let mut steps = vec![Transformation::NewTable { table_id: TableId::Global(r), rows: 0, columns: 0 }];
    steps.extend(constant(1, 1));
    steps.extend(constant(2, 5));
    steps.push(Transformation::Function {
        name: hash_str("table/range"),
        arguments: vec![local(1), local(2)],
        out: (TableId::Global(r), TableIndex::All, TableIndex::All),
    });
    let mut block = Block::new(16);
    block.register_transformations(("#r := 1 : 5".to_string(), steps));
    core.register_block(block).unwrap();
    let table = core.database.get_table(r).unwrap();
    assert_eq!((table.rows, table.cols), (5, 1));
    assert_eq!(table.columns[0].kind, ValueKind::U64);
    for k in 1..=5 {
        assert_eq!(core.get(r, &index(k), &index(1)), Some(Value::U64(k as u64)));
    }
    assert_eq!(core.runtime.blocks[0].state, BlockState::Done);
}

#[test]
fn concat_mismatch() {
    let mut core = new_core();
    let mut block = Block::new(16);
    block.register_transformations((
        "[a b]".to_string(),
        vec![
            Transformation::NewTable { table_id: TableId::Local(1), rows: 2, columns: 1 },
            Transformation::NewTable { table_id: TableId::Local(2), rows: 3, columns: 1 },
            Transformation::NewTable { table_id: TableId::Local(3), rows: 0, columns: 0 },
            Transformation::Function {
                name: hash_str("table/horizontal-concatenate"),
                arguments: vec![local(1), local(2)],
                out: (TableId::Local(3), TableIndex::All, TableIndex::All),
            },
        ],
    ));
    core.register_block(block).unwrap();
    let block = &core.runtime.blocks[0];
    assert_eq!(block.state, BlockState::Error);
    assert_eq!(block.errors.len(), 1);
    assert_eq!(block.errors[0].kind, MechErrorKind::DimensionMismatch(vec![(2, 1), (3, 1)]));
    assert_eq!(block.errors[0].id, hash_str("table/horizontal-concatenate"));
}

#[test]
fn pending_table() {
    let mut core = new_core();
    let x = hash_str("X");
    let mut a = Block::new(16);
    a.register_transformations((
        "y = #X".to_string(),
        vec![
            Transformation::NewTable { table_id: TableId::Local(1), rows: 0, columns: 0 },
            Transformation::Function {
                name: hash_str("table/copy"),
                arguments: vec![(0, TableId::Global(x), TableIndex::All, TableIndex::All)],
                out: (TableId::Local(1), TableIndex::All, TableIndex::All),
            },
        ],
    ));
    core.register_block(a).unwrap();
    assert_eq!(core.runtime.blocks[0].state, BlockState::Unsatisfied);
    assert_eq!(core.runtime.blocks[0].pending, Some(TableId::Global(x)));
    assert_eq!(core.runtime.blocks[0].triggered, 0);

    let mut b = Block::new(16);
    b.register_transformations((
        "#X = 7".to_string(),
        vec![
            Transformation::NewTable { table_id: TableId::Global(x), rows: 1, columns: 1 },
            Transformation::Constant { table_id: TableId::Global(x), value: Value::U64(7), unit: 0 },
        ],
    ));
    core.register_block(b).unwrap();
    assert_eq!(core.get(x, &index(1), &index(1)), Some(Value::U64(7)));
    let a = &core.runtime.blocks[0];
    assert_eq!(a.state, BlockState::Done);
    assert_eq!(a.pending, None);
    assert_eq!(a.triggered, 1);
    let y = a.tables.get(1).unwrap();
    assert_eq!((y.rows, y.cols), (1, 1));
    assert_eq!(y.columns[0].values[0], Value::U64(7));
}

#[test]
fn rewind() {
    let mut core = new_core();
    core.process_transaction(&ball_tables()).unwrap();
    core.register_block(ball_block()).unwrap();
    core.process_transaction(&tick(1)).unwrap();
    assert_eq!(ball(&core), row([3, 4, 3, 13]));
    core.step_back(1);
    assert_eq!(ball(&core), row([0, 0, 3, 4]));
    let ticks = TableIndex::Alias(hash_str("ticks"));
    assert_eq!(core.get(hash_str("time/timer"), &index(1), &ticks), Some(Value::U64(0)));
    assert_eq!(core.position, 1);
    assert!(core.step());
    assert_eq!(ball(&core), row([3, 4, 3, 13]));
    assert!(!core.step());
}

#[test]
fn a_settled_network_runs_no_block() {
    let mut core = new_core();
    core.process_transaction(&ball_tables()).unwrap();
    core.register_block(ball_block()).unwrap();
    core.process_transaction(&tick(1)).unwrap();
    let ran = core.runtime.run_network(&mut core.database.store).unwrap();
    assert_eq!(ran, 0);
    assert_eq!(ball(&core), row([3, 4, 3, 13]));
}

#[test]
fn a_block_that_feeds_itself_is_a_cycle() {
    let mut core = new_core();
    let n = hash_str("n");
    core.process_transaction(&Transaction::from_changeset(vec![
        Change::NewTable { table_id: n, rows: 1, columns: 1 },
        Change::SetCells { table_id: n, values: vec![cell(1, 1, 0)] },
    ]))
    .unwrap();
    let mut steps = constant(1, 1);
    steps.push(Transformation::Function {
        name: hash_str("math/add"),
        arguments: vec![(0, TableId::Global(n), TableIndex::All, TableIndex::All), local(1)],
        out: (TableId::Global(n), TableIndex::All, TableIndex::All),
    });
    let mut block = Block::new(16);
    block.register_transformations(("#n := #n + 1".to_string(), steps));
    let error = core.register_block(block).unwrap_err();
    assert_eq!(error.kind, MechErrorKind::Cycle);
    assert_eq!(error.id, core.runtime.blocks[0].id);
}

#[test]
fn missing_function() {
    let mut core = new_core();
    let mut steps = constant(1, 1);
    steps.push(Transformation::Function {
        name: hash_str("no/such-function"),
        arguments: vec![local(1)],
        out: (TableId::Local(1), TableIndex::All, TableIndex::All),
    });
    let mut block = Block::new(16);
    block.register_transformations(("?".to_string(), steps));
    core.register_block(block).unwrap();
    let block = &core.runtime.blocks[0];
    assert_eq!(block.state, BlockState::Error);
    assert_eq!(block.errors[0].kind, MechErrorKind::MissingFunction(hash_str("no/such-function")));
}
