use mech_core::error::{MechErrorKind, TableShape};
use mech_core::index::{resolve_subscript, ValueIterator};
use mech_core::operations::{
    binary_infix, compare_equal, compare_greater_than, compare_greater_than_equal,
    compare_less_than, compare_less_than_equal, compare_not_equal, logic_and, logic_or, logic_xor,
    math_add, math_divide, math_exponent, math_multiply, math_subtract, set_any, stats_sum,
    table_add_row, table_copy, table_horizontal_concatenate, table_range, table_set,
    table_vertical_concatenate,
};
use mech_core::{hash_str, Operator, Table, TableId, TableIndex, Value, ValueKind};

fn index(k: usize) -> TableIndex {
    TableIndex::Index(k)
}

/// A table of whole numbers, row by row.
fn table(id: u64, rows: usize, cols: usize, values: &[u64]) -> Table {
    let mut t = Table::new(id, rows, cols);
    for (k, v) in values.iter().enumerate() {
        t.set_unchecked_linear(k + 1, Value::U64(*v));
    }
    t
}

fn all(t: &Table) -> ValueIterator {
    select(t, TableIndex::All, TableIndex::All)
}

fn select(t: &Table, row: TableIndex, column: TableIndex) -> ValueIterator {
    resolve_subscript(t, TableId::Local(t.id), row, column, &vec![], &vec![]).unwrap()
}

fn values(t: &Table) -> Vec<Value> {
    mech_core::index::table_values(t)
}

fn numbers(values: &[u64]) -> Vec<Value> {
    values.iter().map(|v| Value::U64(*v)).collect()
}

#[test]
fn selections() {
    let mut t = table(1, 2, 3, &[1, 2, 3, 4, 5, 6]);
    t.set_column_alias(3, 9).unwrap();
    let whole = all(&t);
    assert_eq!((whole.rows(), whole.columns()), (2, 3));
    assert_eq!(whole.values, numbers(&[1, 2, 3, 4, 5, 6]));
    assert_eq!(whole.aliases, vec![None, None, Some(9)]);
    assert_eq!(whole.kinds, vec![ValueKind::U64; 3]);
    assert_eq!(whole.shape(), TableShape::Matrix(2, 3));
    assert!(!whole.is_scalar());
    let column = select(&t, TableIndex::All, TableIndex::Alias(9));
    assert_eq!(column.values, numbers(&[3, 6]));
    assert_eq!(column.shape(), TableShape::Column(2));
    assert_eq!(column.get_column_alias(1), Some(TableIndex::Alias(9)));
    let row = select(&t, index(2), TableIndex::All);
    assert_eq!(row.values, numbers(&[4, 5, 6]));
    let scalar = select(&t, index(1), index(2));
    assert_eq!(scalar.values, numbers(&[2]));
    assert_eq!(scalar.shape(), TableShape::Scalar);
    assert!(scalar.is_scalar());
    assert_eq!(scalar.get(1, 1), Some((Value::U64(2), true)));
    assert_eq!(scalar.get(2, 1), None);
    let linear = select(&t, index(5), TableIndex::Absent);
    assert_eq!(linear.values, numbers(&[5]));
    assert_eq!(linear.positions, vec![(2, 2)]);
    let flat = select(&t, TableIndex::All, TableIndex::Absent);
    assert_eq!((flat.rows(), flat.columns()), (2, 3));
    t.dynamic = true;
    assert_eq!(all(&t).shape(), TableShape::Dynamic(2, 3));
}

#[test]
fn selections_through_tables() {
    let t = table(1, 3, 2, &[1, 2, 3, 4, 5, 6]);
    let scope = TableId::Local(1);
    let by_table = TableIndex::Table(TableId::Local(2));
    let mask = vec![Value::Bool(true), Value::Bool(false), Value::Bool(true)];
    let masked = resolve_subscript(&t, scope, by_table, TableIndex::All, &mask, &vec![]).unwrap();
    assert_eq!(masked.values, numbers(&[1, 2, 5, 6]));
    let picks = vec![Value::U64(3), Value::U8(1), Value::Empty, Value::I32(3)];
    let picked = resolve_subscript(&t, scope, by_table, index(2), &picks, &vec![]).unwrap();
    assert_eq!(picked.values, numbers(&[6, 2, 6]));
    let cells = resolve_subscript(&t, scope, by_table, TableIndex::Absent, &picks, &vec![]).unwrap();
    assert_eq!(cells.values, numbers(&[3, 1, 3]));
    let columns = resolve_subscript(&t, scope, TableIndex::All, by_table, &vec![], &vec![Value::U64(2)]).unwrap();
    assert_eq!(columns.values, numbers(&[2, 4, 6]));
}

#[test]
fn selections_that_fail() {
    let t = table(1, 2, 2, &[1, 2, 3, 4]);
    let scope = TableId::Local(1);
    let fails = |row: TableIndex, column: TableIndex, keys: Vec<Value>| {
        resolve_subscript(&t, scope, row, column, &keys, &keys).unwrap_err()
    };
    assert_eq!(fails(index(0), index(1), vec![]), MechErrorKind::ZeroIndex);
    assert_eq!(fails(index(3), index(1), vec![]), MechErrorKind::LinearSubscriptOutOfBounds(3, 2));
    assert_eq!(fails(index(5), index(0), vec![]), MechErrorKind::LinearSubscriptOutOfBounds(5, 4));
    assert_eq!(
        fails(TableIndex::All, TableIndex::Alias(7), vec![]),
        MechErrorKind::MissingColumn(scope, TableIndex::Alias(7))
    );
    let by_table = TableIndex::Table(TableId::Local(2));
    assert_eq!(fails(by_table, index(1), vec![Value::U64(0)]), MechErrorKind::ZeroIndex);
    assert_eq!(
        fails(by_table, index(1), vec![Value::String(1)]),
        MechErrorKind::UnhandledFunctionArgumentKind(ValueKind::String)
    );
    assert_eq!(
        fails(by_table, index(1), vec![Value::Bool(false), Value::Bool(false), Value::Bool(true)]),
        MechErrorKind::LinearSubscriptOutOfBounds(3, 2)
    );
    assert_eq!(
        fails(by_table, index(1), vec![Value::U64(9)]),
        MechErrorKind::LinearSubscriptOutOfBounds(9, 2)
    );
}

#[test]
fn element_wise_operators() {
    let a = table(1, 2, 2, &[1, 2, 3, 4]);
    let b = table(2, 2, 2, &[10, 20, 30, 40]);
    let three = table(3, 1, 1, &[3]);
    let mut out = Table::new(9, 0, 0);
    math_add(&vec![(0, all(&a)), (0, all(&b))], &mut out).unwrap();
    assert_eq!(values(&out), numbers(&[11, 22, 33, 44]));
    assert_eq!((out.rows, out.cols), (2, 2));
    let mut out = Table::new(9, 0, 0);
    math_multiply(&vec![(0, all(&a)), (0, all(&three))], &mut out).unwrap();
    assert_eq!(values(&out), numbers(&[3, 6, 9, 12]));
    let mut out = Table::new(9, 5, 5);
    math_divide(&vec![(0, all(&three)), (0, all(&a))], &mut out).unwrap();
    assert_eq!(values(&out), numbers(&[3, 1, 1, 0]));
    let mut out = Table::new(9, 0, 0);
    compare_greater_than(&vec![(0, all(&a)), (0, all(&three))], &mut out).unwrap();
    assert_eq!(values(&out), vec![Value::Bool(false), Value::Bool(false), Value::Bool(false), Value::Bool(true)]);
    assert_eq!(out.columns[0].kind, ValueKind::Bool);
    let mut out = Table::new(9, 0, 0);
    compare_equal(&vec![(0, all(&three)), (0, all(&three))], &mut out).unwrap();
    assert_eq!(values(&out), vec![Value::Bool(true)]);
    let mut flags = Table::new(4, 1, 2);
    flags.set_unchecked(1, 1, Value::Bool(true));
    flags.set_unchecked(1, 2, Value::Bool(false));
    let mut out = Table::new(9, 0, 0);
    logic_or(&vec![(0, all(&flags)), (0, select(&flags, index(1), index(2)))], &mut out).unwrap();
    assert_eq!(values(&out), vec![Value::Bool(true), Value::Bool(false)]);
}

#[test]
fn element_wise_operators_that_fail() {
    let a = table(1, 2, 1, &[1, 2]);
    let b = table(2, 3, 1, &[1, 2, 3]);
    let mut out = table(9, 1, 1, &[7]);
    assert_eq!(
        math_add(&vec![(0, all(&a)), (0, all(&b))], &mut out),
        Err(MechErrorKind::DimensionMismatch(vec![(2, 1), (3, 1)]))
    );
    assert_eq!(
        math_add(&vec![(0, all(&a)), (0, all(&a)), (0, all(&a))], &mut out),
        Err(MechErrorKind::TooManyInputArguments(3, 2))
    );
    assert_eq!(math_add(&vec![(0, all(&a))], &mut out), Err(MechErrorKind::Unhandled));
    let zero = table(3, 1, 1, &[0]);
    assert_eq!(
        math_divide(&vec![(0, all(&a)), (0, all(&zero))], &mut out),
        Err(MechErrorKind::DivideByZero)
    );
    let mut flag = Table::new(4, 1, 1);
    flag.set_unchecked(1, 1, Value::Bool(true));
    assert_eq!(
        binary_infix(Operator::Add, &vec![(0, all(&a)), (0, all(&flag))], &mut out),
        Err(MechErrorKind::ColumnKindMismatch(ValueKind::U64, ValueKind::Bool))
    );
    assert_eq!(values(&out), numbers(&[7]));
    assert_eq!((out.rows, out.cols), (1, 1));
}

#[test]
fn unchanged_operands_do_not_overwrite() {
    let mut a = table(1, 2, 1, &[1, 2]);
    let b = table(2, 2, 1, &[10, 20]);
    a.reset_changed();
    a.set_unchecked(2, 1, Value::U64(5));
    let mut out = table(9, 1, 1, &[100]);
    math_add(&vec![(0, all(&a)), (0, all(&b))], &mut out).unwrap();
    assert_eq!(values(&out), numbers(&[100, 25]));
    let mut out = Table::new(9, 0, 0);
    math_add(&vec![(0, all(&a)), (0, all(&b))], &mut out).unwrap();
    assert_eq!(values(&out), numbers(&[11, 25]));
}

#[test]
fn sums() {
    let t = table(1, 2, 3, &[1, 2, 3, 4, 5, 6]);
    let mut out = Table::new(9, 0, 0);
    stats_sum(&vec![(hash_str("column"), all(&t))], &mut out).unwrap();
    assert_eq!(values(&out), numbers(&[5, 7, 9]));
    assert_eq!((out.rows, out.cols), (1, 3));
    stats_sum(&vec![(hash_str("row"), all(&t))], &mut out).unwrap();
    assert_eq!(values(&out), numbers(&[6, 15]));
    assert_eq!((out.rows, out.cols), (2, 1));
    stats_sum(&vec![(hash_str("table"), all(&t))], &mut out).unwrap();
    assert_eq!(values(&out), numbers(&[21]));
    let mask = vec![Value::Bool(true), Value::Bool(false)];
    let gated = resolve_subscript(&t, TableId::Local(1), TableIndex::Table(TableId::Local(2)), index(2), &mask, &vec![]).unwrap();
    stats_sum(&vec![(hash_str("column"), gated)], &mut out).unwrap();
    assert_eq!(values(&out), numbers(&[2]));
    assert_eq!(
        stats_sum(&vec![(hash_str("diagonal"), all(&t))], &mut out),
        Err(MechErrorKind::UnknownFunctionArgument(hash_str("diagonal")))
    );
    assert_eq!(
        stats_sum(&vec![(0, all(&t)), (0, all(&t))], &mut out),
        Err(MechErrorKind::TooManyInputArguments(2, 1))
    );
    let mut mixed = table(2, 2, 1, &[1, 2]);
    mixed.set_unchecked(2, 1, Value::Bool(true));
    assert_eq!(
        stats_sum(&vec![(hash_str("column"), all(&mixed))], &mut out),
        Err(MechErrorKind::ColumnKindMismatch(ValueKind::U64, ValueKind::Bool))
    );
}

#[test]
fn the_sum_of_no_cells_is_zero() {
    let mut t = Table::new(1, 0, 1);
    t.set_col_kind(1, ValueKind::I32).unwrap();
    let mut out = Table::new(9, 0, 0);
    stats_sum(&vec![(hash_str("column"), all(&t))], &mut out).unwrap();
    assert_eq!((out.rows, out.cols), (1, 1));
    assert_eq!(out.get_unchecked(1, 1).0, Value::I32(0));
    let mut holes = Table::new(2, 3, 1);
    holes.set_unchecked(2, 1, Value::U8(4));
    stats_sum(&vec![(hash_str("column"), all(&holes))], &mut out).unwrap();
    assert_eq!(out.get_unchecked(1, 1).0, Value::U8(4));
}

#[test]
fn any() {
    let mut t = Table::new(1, 2, 2);
    t.set_unchecked(1, 2, Value::Bool(true));
    t.set_unchecked(2, 1, Value::Bool(false));
    let mut out = Table::new(9, 0, 0);
    set_any(&vec![(hash_str("row"), all(&t))], &mut out).unwrap();
    assert_eq!(values(&out), vec![Value::Bool(true), Value::Bool(false)]);
    set_any(&vec![(hash_str("column"), all(&t))], &mut out).unwrap();
    assert_eq!(values(&out), vec![Value::Bool(false), Value::Bool(true)]);
    set_any(&vec![(hash_str("table"), all(&t))], &mut out).unwrap();
    assert_eq!(values(&out), vec![Value::Bool(true)]);
    assert_eq!(
        set_any(&vec![(1, all(&t))], &mut out),
        Err(MechErrorKind::UnknownFunctionArgument(1))
    );
}

#[test]
fn ranges() {
    let scalar = |v: u64| all(&table(1, 1, 1, &[v]));
    let mut out = Table::new(9, 0, 0);
    table_range(&vec![(0, scalar(1)), (0, scalar(5))], &mut out).unwrap();
    assert_eq!(values(&out), numbers(&[1, 2, 3, 4, 5]));
    assert_eq!((out.rows, out.cols), (5, 1));
    assert_eq!(out.columns[0].kind, ValueKind::U64);
    table_range(&vec![(0, scalar(7)), (0, scalar(7))], &mut out).unwrap();
    assert_eq!(values(&out), numbers(&[7]));
    assert_eq!((out.rows, out.cols), (1, 1));
    table_range(&vec![(0, scalar(2)), (0, scalar(11)), (0, scalar(4))], &mut out).unwrap();
    assert_eq!(values(&out), numbers(&[2, 6, 10]));
    table_range(&vec![(0, scalar(5)), (0, scalar(1))], &mut out).unwrap();
    assert_eq!((out.rows, out.cols), (0, 1));
    table_range(&vec![(0, scalar(u64::MAX - 1)), (0, scalar(u64::MAX))], &mut out).unwrap();
    assert_eq!(values(&out), numbers(&[u64::MAX - 1, u64::MAX]));
    assert_eq!(
        table_range(&vec![(0, scalar(1)), (0, scalar(5)), (0, scalar(0))], &mut out),
        Err(MechErrorKind::DivideByZero)
    );
    let pair = table(2, 2, 1, &[1, 2]);
    assert_eq!(
        table_range(&vec![(0, all(&pair)), (0, scalar(5))], &mut out),
        Err(MechErrorKind::UnhandledTableShape(TableShape::Column(2)))
    );
    let mut flag = Table::new(3, 1, 1);
    flag.set_unchecked(1, 1, Value::Bool(true));
    assert_eq!(
        table_range(&vec![(0, scalar(1)), (0, all(&flag))], &mut out),
        Err(MechErrorKind::UnhandledFunctionArgumentKind(ValueKind::Bool))
    );
    assert_eq!(table_range(&vec![(0, scalar(1))], &mut out), Err(MechErrorKind::Unhandled));
    assert_eq!(
        table_range(&vec![(0, scalar(1)), (0, scalar(1)), (0, scalar(1)), (0, scalar(1))], &mut out),
        Err(MechErrorKind::TooManyInputArguments(4, 3))
    );
}

#[test]
fn a_column_beside_itself() {
    let column = table(1, 3, 1, &[3, 1, 2]);
    let mut out = Table::new(9, 0, 0);
    table_horizontal_concatenate(&vec![(0, all(&column)), (0, all(&column))], &mut out).unwrap();
    assert_eq!((out.rows, out.cols), (3, 2));
    for r in 1..=3 {
        assert_eq!(out.get_unchecked(r, 1).0, out.get_unchecked(r, 2).0);
        assert_eq!(out.get_unchecked(r, 1).0, column.get_unchecked(r, 1).0);
    }
}

#[test]
fn a_row_beside_a_matrix_stands_in_every_row() {
    let row = table(1, 1, 2, &[7, 8]);
    let matrix = table(2, 3, 2, &[1, 2, 3, 4, 5, 6]);
    let mut out = Table::new(9, 0, 0);
    table_horizontal_concatenate(&vec![(0, all(&row)), (0, all(&matrix))], &mut out).unwrap();
    assert_eq!((out.rows, out.cols), (3, 4));
    assert_eq!(values(&out), numbers(&[7, 8, 1, 2, 7, 8, 3, 4, 7, 8, 5, 6]));
    let short = table(3, 2, 1, &[1, 2]);
    assert_eq!(
        table_horizontal_concatenate(&vec![(0, all(&short)), (0, all(&matrix))], &mut out),
        Err(MechErrorKind::DimensionMismatch(vec![(2, 1), (3, 2)]))
    );
    assert_eq!(table_horizontal_concatenate(&vec![], &mut out), Err(MechErrorKind::Unhandled));
    assert_eq!((out.rows, out.cols), (3, 4));
}

#[test]
fn tables_below_one_another() {
    let a = table(1, 1, 2, &[1, 2]);
    let b = table(2, 2, 2, &[3, 4, 5, 6]);
    let mut out = Table::new(9, 0, 0);
    table_vertical_concatenate(&vec![(0, all(&a)), (0, all(&b))], &mut out).unwrap();
    assert_eq!((out.rows, out.cols), (3, 2));
    assert_eq!(values(&out), numbers(&[1, 2, 3, 4, 5, 6]));
    let narrow = table(3, 2, 1, &[1, 2]);
    assert_eq!(
        table_vertical_concatenate(&vec![(0, all(&a)), (0, all(&narrow))], &mut out),
        Err(MechErrorKind::DimensionMismatch(vec![(1, 2), (2, 1)]))
    );
    assert_eq!(table_vertical_concatenate(&vec![], &mut out), Err(MechErrorKind::Unhandled));
}

#[test]
fn copies() {
    let t = table(1, 2, 2, &[1, 2, 3, 4]);
    let mut out = table(9, 3, 3, &[9; 9]);
    table_copy(&vec![(0, all(&t))], &mut out).unwrap();
    assert_eq!((out.rows, out.cols), (2, 2));
    assert_eq!(values(&out), numbers(&[1, 2, 3, 4]));
    assert_eq!(table_copy(&vec![], &mut out), Err(MechErrorKind::Unhandled));
}

#[test]
fn set_writes_into_the_cells_that_are_named() {
    let mut out = table(9, 3, 2, &[1, 2, 3, 4, 5, 6]);
    let five = table(1, 1, 1, &[50]);
    let target = select(&out, TableIndex::All, index(2));
    table_set(&vec![(0, all(&five))], &mut out, &target).unwrap();
    assert_eq!(values(&out), numbers(&[1, 50, 3, 50, 5, 50]));
    let column = table(2, 3, 1, &[7, 8, 9]);
    let target = select(&out, TableIndex::All, index(1));
    table_set(&vec![(0, all(&column))], &mut out, &target).unwrap();
    assert_eq!(values(&out), numbers(&[7, 50, 8, 50, 9, 50]));
    let mask = vec![Value::Bool(false), Value::Bool(true), Value::Bool(true)];
    let target = resolve_subscript(&out, TableId::Local(9), TableIndex::Table(TableId::Local(3)), index(2), &mask, &vec![]).unwrap();
    let source = table(4, 3, 1, &[100, 200, 300]);
    table_set(&vec![(0, all(&source))], &mut out, &target).unwrap();
    assert_eq!(values(&out), numbers(&[7, 50, 8, 200, 9, 300]));
    let short = table(5, 2, 1, &[1, 2]);
    let target = select(&out, TableIndex::All, index(1));
    table_set(&vec![(0, all(&short))], &mut out, &target).unwrap();
    assert_eq!(values(&out), numbers(&[1, 50, 2, 200, 9, 300]));
    assert_eq!(
        table_set(&vec![(0, all(&short)), (0, all(&short))], &mut out, &target),
        Err(MechErrorKind::TooManyInputArguments(2, 1))
    );
}

#[test]
fn rows_are_added_by_alias_or_by_position() {
    let mut out = table(9, 1, 2, &[1, 2]);
    out.set_column_alias(1, 10).unwrap();
    out.set_column_alias(2, 20).unwrap();
    let mut source = table(1, 2, 2, &[3, 4, 5, 6]);
    source.set_column_alias(1, 20).unwrap();
    table_add_row(&vec![(0, all(&source))], &mut out).unwrap();
    assert_eq!((out.rows, out.cols), (3, 2));
    assert_eq!(values(&out), vec![
        Value::U64(1), Value::U64(2), Value::Empty, Value::U64(4), Value::Empty, Value::U64(6),
    ]);
    let mut out = table(9, 1, 2, &[1, 2]);
    let plain = table(1, 1, 2, &[3, 4]);
    table_add_row(&vec![(0, all(&plain))], &mut out).unwrap();
    assert_eq!(values(&out), numbers(&[1, 2, 3, 4]));
}

fn flags(values: &[bool]) -> Vec<Value> {
    values.iter().map(|v| Value::Bool(*v)).collect()
}

#[test]
fn each_operator_by_its_name() {
    let a = table(1, 3, 1, &[1, 2, 3]);
    let two = table(2, 1, 1, &[2]);
    let operands = || vec![(0, all(&a)), (0, all(&two))];
    let mut out = Table::new(9, 0, 0);
    math_subtract(&vec![(0, all(&a)), (0, all(&table(3, 1, 1, &[1])))], &mut out).unwrap();
    assert_eq!(values(&out), numbers(&[0, 1, 2]));
    let mut out = Table::new(9, 0, 0);
    math_exponent(&operands(), &mut out).unwrap();
    assert_eq!(values(&out), numbers(&[1, 4, 9]));
    let mut out = Table::new(9, 0, 0);
    compare_less_than(&operands(), &mut out).unwrap();
    assert_eq!(values(&out), flags(&[true, false, false]));
    let mut out = Table::new(9, 0, 0);
    compare_less_than_equal(&operands(), &mut out).unwrap();
    assert_eq!(values(&out), flags(&[true, true, false]));
    let mut out = Table::new(9, 0, 0);
    compare_greater_than_equal(&operands(), &mut out).unwrap();
    assert_eq!(values(&out), flags(&[false, true, true]));
    let mut out = Table::new(9, 0, 0);
    compare_not_equal(&operands(), &mut out).unwrap();
    assert_eq!(values(&out), flags(&[true, false, true]));
    let mut left = Table::new(4, 4, 1);
    let mut right = Table::new(5, 4, 1);
    for (k, (l, r)) in [(false, false), (false, true), (true, false), (true, true)].iter().enumerate() {
        left.set_unchecked(k + 1, 1, Value::Bool(*l));
        right.set_unchecked(k + 1, 1, Value::Bool(*r));
    }
    let mut out = Table::new(9, 0, 0);
    logic_and(&vec![(0, all(&left)), (0, all(&right))], &mut out).unwrap();
    assert_eq!(values(&out), flags(&[false, false, false, true]));
    let mut out = Table::new(9, 0, 0);
    logic_xor(&vec![(0, all(&left)), (0, all(&right))], &mut out).unwrap();
    assert_eq!(values(&out), flags(&[false, true, true, false]));
    assert_eq!(
        logic_and(&operands(), &mut out),
        Err(MechErrorKind::ColumnKindMismatch(ValueKind::Bool, ValueKind::U64))
    );
    assert_eq!(Operator::Add.result_kind(ValueKind::U8), ValueKind::U8);
    assert_eq!(Operator::LessThan.result_kind(ValueKind::U8), ValueKind::Bool);
    assert_eq!(Operator::Xor.result_kind(ValueKind::Bool), ValueKind::Bool);
}

#[test]
fn rows_of_several_widths_are_summed_in_the_widest() {
    let mut t = Table::new(1, 2, 3);
    t.set_unchecked(1, 1, Value::U8(200));
    t.set_unchecked(2, 1, Value::U8(100));
    t.set_unchecked(1, 2, Value::I16(-5));
    t.set_unchecked(2, 2, Value::I16(7));
    t.set_unchecked(1, 3, Value::U16(65535));
    t.set_unchecked(2, 3, Value::U16(1));
    let mut out = Table::new(9, 0, 0);
    stats_sum(&vec![(hash_str("row"), all(&t))], &mut out).unwrap();
    assert_eq!((out.rows, out.cols), (2, 1));
    assert_eq!(values(&out), vec![Value::I16(-32574), Value::I16(108)]);
    let mut out = Table::new(9, 0, 0);
    stats_sum(&vec![(hash_str("column"), all(&t))], &mut out).unwrap();
    assert_eq!(values(&out), vec![Value::U8(44), Value::I16(2), Value::U16(0)]);
    assert_eq!(Value::U64(300).converted(ValueKind::U8), Value::U8(255));
    assert_eq!(Value::I64(-300).converted(ValueKind::U8), Value::U8(0));
    assert_eq!(Value::I64(-300).converted(ValueKind::I8), Value::I8(-128));
    assert_eq!(Value::I8(-3).converted(ValueKind::I128), Value::I128(-3));
    assert_eq!(Value::U128(u128::MAX).converted(ValueKind::I128), Value::I128(i128::MAX));
    assert_eq!(Value::I128(i128::MIN).converted(ValueKind::I64), Value::I64(i64::MIN));
    assert_eq!(Value::Bool(true).converted(ValueKind::U8), Value::Bool(true));
    assert_eq!(Value::U8(3).converted(ValueKind::Bool), Value::U8(3));
    assert_eq!(ValueKind::I32.width(), 32);
    assert_eq!(ValueKind::Quantity.width(), 0);
}

#[test]
fn a_result_without_rows_still_has_its_kinds() {
    let mut none = Table::new(1, 0, 2);
    none.set_col_kind(1, ValueKind::U64).unwrap();
    none.set_col_kind(2, ValueKind::I8).unwrap();
    let three = table(2, 1, 1, &[3]);
    let mut out = Table::new(9, 4, 4);
    compare_greater_than(&vec![(0, all(&none)), (0, all(&three))], &mut out).unwrap();
    assert_eq!((out.rows, out.cols), (0, 2));
    assert_eq!(out.columns[0].kind, ValueKind::Bool);
    assert_eq!(out.columns[1].kind, ValueKind::Bool);
    let mut out = Table::new(9, 0, 0);
    math_add(&vec![(0, all(&three)), (0, all(&none))], &mut out).unwrap();
    assert_eq!((out.rows, out.cols), (0, 2));
    assert_eq!(out.columns[0].kind, ValueKind::U64);
    assert_eq!(out.columns[1].kind, ValueKind::I8);
    let mut out = Table::new(9, 0, 0);
    stats_sum(&vec![(hash_str("row"), all(&none))], &mut out).unwrap();
    assert_eq!((out.rows, out.cols), (0, 1));
    assert_eq!(out.columns[0].kind, ValueKind::U64);
    let mut out = Table::new(9, 0, 0);
    set_any(&vec![(hash_str("row"), all(&none))], &mut out).unwrap();
    assert_eq!(out.columns[0].kind, ValueKind::Bool);
    let mut out = Table::new(9, 0, 0);
    table_copy(&vec![(0, all(&none))], &mut out).unwrap();
    assert_eq!((out.columns[0].kind, out.columns[1].kind), (ValueKind::U64, ValueKind::I8));
    let mut out = Table::new(9, 0, 0);
    table_horizontal_concatenate(&vec![(0, all(&none)), (0, all(&none))], &mut out).unwrap();
    assert_eq!((out.rows, out.cols), (0, 4));
    assert_eq!(
        out.columns.iter().map(|c| c.kind).collect::<Vec<_>>(),
        vec![ValueKind::U64, ValueKind::I8, ValueKind::U64, ValueKind::I8]
    );
    let mut out = Table::new(9, 0, 0);
    table_vertical_concatenate(&vec![(0, all(&none)), (0, all(&none))], &mut out).unwrap();
    assert_eq!((out.rows, out.cols), (0, 2));
    assert_eq!((out.columns[0].kind, out.columns[1].kind), (ValueKind::U64, ValueKind::I8));
    let mut out = Table::new(9, 0, 0);
    table_range(&vec![(0, all(&table(3, 1, 1, &[5]))), (0, all(&three))], &mut out).unwrap();
    assert_eq!((out.rows, out.cols), (0, 1));
    assert_eq!(out.columns[0].kind, ValueKind::U64);
}

#[test]
fn an_operator_gives_its_output_the_kind_of_its_result() {
    let mut none = Table::new(1, 0, 1);
    none.set_col_kind(1, ValueKind::U64).unwrap();
    let mut out = Table::new(9, 1, 1);
    out.set_unchecked(1, 1, Value::Bool(true));
    assert_eq!(out.columns[0].kind, ValueKind::Bool);
    stats_sum(&vec![(hash_str("column"), all(&none))], &mut out).unwrap();
    assert_eq!((out.rows, out.cols), (1, 1));
    assert_eq!(values(&out), numbers(&[0]));
    assert_eq!(out.columns[0].kind, ValueKind::U64);
    let a = table(2, 2, 1, &[1, 5]);
    let three = table(3, 1, 1, &[3]);
    let mut out = table(9, 2, 1, &[7, 8]);
    compare_greater_than(&vec![(0, all(&a)), (0, all(&three))], &mut out).unwrap();
    assert_eq!(values(&out), vec![Value::Bool(false), Value::Bool(true)]);
    assert_eq!(out.columns[0].kind, ValueKind::Bool);
    let mut out = Table::new(9, 1, 1);
    out.set_unchecked(1, 1, Value::Bool(true));
    table_range(&vec![(0, all(&three)), (0, all(&three))], &mut out).unwrap();
    assert_eq!(values(&out), numbers(&[3]));
    assert_eq!(out.columns[0].kind, ValueKind::U64);
}

#[test]
fn a_held_cell_of_another_kind_is_written_anew() {
    let mut a = table(1, 2, 1, &[1, 5]);
    let three = table(3, 1, 1, &[3]);
    a.reset_changed();
    let mut out = table(9, 2, 1, &[7, 8]);
    compare_greater_than(&vec![(0, all(&a)), (0, all(&three))], &mut out).unwrap();
    assert_eq!(values(&out), vec![Value::Bool(false), Value::Bool(true)]);
    assert_eq!(out.columns[0].kind, ValueKind::Bool);
    let mut out = table(9, 2, 1, &[7, 8]);
    math_add(&vec![(0, all(&a)), (0, all(&three))], &mut out).unwrap();
    assert_eq!(values(&out), numbers(&[7, 8]));
}
