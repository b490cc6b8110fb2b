//! Blocks: the units of a program. A block reads tables, computes, and
//! writes tables; it runs again whenever what it reads has changed.

use vstd::prelude::*;
use crate::collections::IdMap;
use crate::database::{Change, ChangeModel};
use crate::error::{MechError, MechErrorKind, TableShape};
use crate::hash::{hash_bytes, hash_str, spec_hash_bytes, spec_hash_chars, HASH_MASK};
use crate::indexes::TableRegistry;
use crate::operations::Failure;
use crate::quantities::{clamp, Quantity};
use crate::table::{Table, TableId, TableIndex, TableModel};
use crate::value::Value;

verus! {

/// Where a block stands in its life.
#[derive(Clone, Copy, Debug, PartialEq, Eq, Structural, Hash)]
pub enum BlockState {
    /// Has just been created, and was not yet tested for readiness.
    New,
    /// All inputs are there; the block will run.
    Ready,
    /// All inputs were there, and the block has run.
    Done,
    /// A table that the block reads does not exist yet.
    Unsatisfied,
    /// One or more errors are attached to the block.
    Error,
    /// The block does not run, even if it otherwise would.
    Disabled,
}

/// What a block can fail to find.
#[derive(Clone, Copy, Debug, PartialEq, Eq, Structural, Hash)]
pub enum Error {
    TableNotFound,
}

/// The name of a slice of a table: some rows of some columns. Registers say
/// what a block reads and writes; they hold no data.
#[derive(Clone, Copy, Debug, PartialEq, Eq, Structural, Hash)]
pub struct Register {
    pub table_id: TableId,
    pub row: TableIndex,
    pub column: TableIndex,
}

/// One instruction of a block.
#[allow(inconsistent_fields)]
#[derive(Debug, PartialEq, Eq)]
pub enum Transformation {
    /// Make a table of this shape.
    NewTable { table_id: TableId, rows: usize, columns: usize },
    /// Write a scalar into a table of one cell. The unit scales a number.
    Constant { table_id: TableId, value: Value, unit: u64 },
    /// Bind an alias to a column.
    ColumnAlias { table_id: TableId, column_ix: usize, column_alias: u64 },
    /// The block writes to this slice.
    SetRegister { table_id: TableId, row: TableIndex, column: TableIndex },
    RowAlias { table_id: TableId, row_ix: usize, row_alias: u64 },
    /// The block runs when one of the registers has changed.
    Whenever { table_id: TableId, row: TableIndex, column: TableIndex, registers: Vec<Register> },
    /// Call the operator of this name on the arguments, each a name and a
    /// slice, and put the result into the slice `out`.
    Function {
        name: u64,
        arguments: Vec<(u64, TableId, TableIndex, TableIndex)>,
        out: (TableId, TableIndex, TableIndex),
    },
    /// Narrow a table by one subscript after another, and put what is left
    /// into the table `out`.
    Select {
        table_id: TableId,
        row: TableIndex,
        column: TableIndex,
        indices: Vec<(TableIndex, TableIndex)>,
        out: TableId,
    },
    /// Make a table of one cell hold a reference to another table.
    TableReference { table_id: TableId, reference: Value },
}

/// The number that a selector carries, in 64 bits.
pub open spec fn selector_number(index: TableIndex) -> u64 {
    match index {
        TableIndex::Index(ix) => ix as u64,
        TableIndex::Alias(alias) => alias,
        TableIndex::Table(table_id) => table_id.spec_unwrap(),
        TableIndex::Absent | TableIndex::All => 0,
    }
}

impl Register {
    /// The bytes that a register is hashed by: the table id, the number of
    /// the row selector and that of the column selector, each as eight bytes
    /// with the lowest first.
    pub open spec fn spec_bytes(&self) -> Seq<u8> {
        vstd::bytes::spec_u64_to_le_bytes(self.table_id.spec_unwrap())
            + vstd::bytes::spec_u64_to_le_bytes(selector_number(self.row))
            + vstd::bytes::spec_u64_to_le_bytes(selector_number(self.column))
    }

    /// The key of a register: the 56-bit hash of its bytes. It depends on the
    /// register alone.
    pub open spec fn spec_hash(&self) -> u64 {
        spec_hash_bytes(self.spec_bytes())
    }

    /// The register of the cells that the selectors name in the table.
    pub fn new(table_id: TableId, row: TableIndex, column: TableIndex) -> (r: Register)
        ensures
            r == (Register { table_id, row, column }),
    {
        Register { table_id, row, column }
    }

    fn unwrap_index(index: &TableIndex) -> (n: u64)
        ensures
            n == selector_number(*index),
    {
        match index {
            TableIndex::Index(ix) => *ix as u64,
            TableIndex::Alias(alias) => *alias,
            TableIndex::Table(table_id) => *table_id.unwrap(),
            TableIndex::Absent | TableIndex::All => 0,
        }
    }

    /// The key of the register.
    pub fn hash(&self) -> (h: u64)
        ensures
            h == self.spec_hash(),
            h <= HASH_MASK,
    {
        let mut array: Vec<u8> = vstd::bytes::u64_to_le_bytes(*self.table_id.unwrap());
        let mut row_bytes: Vec<u8> = vstd::bytes::u64_to_le_bytes(Register::unwrap_index(&self.row));
        let mut column_bytes: Vec<u8> = vstd::bytes::u64_to_le_bytes(
            Register::unwrap_index(&self.column),
        );
        array.append(&mut row_bytes);
        array.append(&mut column_bytes);
        hash_bytes(&array)
    }
}

/// Two registers that agree in table and in the numbers of their selectors
/// have the same key, whatever the form of the selectors.
pub proof fn lemma_hash_depends_on_numbers(a: Register, b: Register)
    requires
        a.table_id.spec_unwrap() == b.table_id.spec_unwrap(),
        selector_number(a.row) == selector_number(b.row),
        selector_number(a.column) == selector_number(b.column),
    ensures
        a.spec_hash() == b.spec_hash(),
{
}


/// Whether one of the registers has the key `key`.
pub open spec fn holds_key(items: Seq<Register>, key: u64) -> bool {
    exists|i: int| 0 <= i < items.len() && (#[trigger] items[i]).spec_hash() == key
}

/// The place of the first register from `from` on that has the key `key`.
pub open spec fn position_of(items: Seq<Register>, key: u64, from: int) -> Option<int>
    decreases items.len() - from,
{
    if from < 0 || from >= items.len() {
        None
    } else if items[from].spec_hash() == key {
        Some(from)
    } else {
        position_of(items, key, from + 1)
    }
}

/// A position that `position_of` gives lies within the registers and holds a
/// register with that key.
pub proof fn lemma_position_of(items: Seq<Register>, key: u64, from: int)
    requires
        0 <= from,
    ensures
        match position_of(items, key, from) {
            Some(i) => from <= i < items.len() && items[i].spec_hash() == key,
            None => forall|i: int| from <= i < items.len() ==> (#[trigger] items[i]).spec_hash() != key,
        },
    decreases items.len() - from,
{
    if from < items.len() && items[from].spec_hash() != key {
        lemma_position_of(items, key, from + 1);
    }
}

/// The registers with `register` added, unless one with the same key is
/// among them.
pub open spec fn with_register(items: Seq<Register>, register: Register) -> Seq<Register> {
    if holds_key(items, register.spec_hash()) {
        items
    } else {
        items.push(register)
    }
}

/// One flag for each register: those of `flags`, and `false` for a register
/// that was added.
pub open spec fn with_flag(items: Seq<Register>, flags: Seq<bool>, register: Register) -> Seq<bool> {
    if holds_key(items, register.spec_hash()) {
        flags
    } else {
        flags.push(false)
    }
}

/// A set of registers, in the order in which they were added. Registers are
/// told apart by their keys.
#[derive(Debug)]
pub struct RegisterSet {
    pub items: Vec<Register>,
    pub slots: IdMap,
}

impl RegisterSet {
    /// Every register is found under its key, and every key that is known
    /// leads to a register that has it.
    pub open spec fn wf(&self) -> bool {
        &&& forall|i: int|
            0 <= i < self.items@.len() ==> self.slots@.dom().contains(
                (#[trigger] self.items@[i]).spec_hash(),
            ) && self.slots@[self.items@[i].spec_hash()] == i
        &&& forall|key: u64| #[trigger]
            self.slots@.dom().contains(key) ==> self.slots@[key] < self.items@.len()
                && self.items@[self.slots@[key] as int].spec_hash() == key
    }

    /// The set without registers.
    pub fn new() -> (s: RegisterSet)
        ensures
            s.wf(),
            s.items@.len() == 0,
    {
        RegisterSet { items: Vec::new(), slots: IdMap::new() }
    }

    /// The number of registers in the set.
    pub fn len(&self) -> (n: usize)
        ensures
            n == self.items@.len(),
    {
        self.items.len()
    }

    /// The place of the register with the key of `register`.
    pub fn position(&self, register: &Register) -> (p: Option<usize>)
        requires
            self.wf(),
        ensures
            match p {
                Some(i) => i < self.items@.len() && self.items@[i as int].spec_hash()
                    == register.spec_hash() && position_of(self.items@, register.spec_hash(), 0)
                    == Some(i as int),
                None => !holds_key(self.items@, register.spec_hash()) && position_of(
                    self.items@,
                    register.spec_hash(),
                    0,
                ) is None,
            },
    {
        let key: u64 = register.hash();
        proof {
            lemma_position_of(self.items@, key, 0);
        }
        match self.slots.get(key) {
            Some(i) => {
                assert(self.slots@.dom().contains(key));
                Some(i)
            },
            None => None,
        }
    }

    /// Whether a register with the key of `register` is in the set.
    pub fn contains(&self, register: &Register) -> (b: bool)
        requires
            self.wf(),
        ensures
            b == holds_key(self.items@, register.spec_hash()),
    {
        match self.position(register) {
            Some(_) => true,
            None => false,
        }
    }

    /// Adds a register, unless one with the same key is in the set. Says
    /// whether it was added.
    pub fn insert(&mut self, register: Register) -> (added: bool)
        requires
            old(self).wf(),
        ensures
            final(self).wf(),
            final(self).items@ == with_register(old(self).items@, register),
            added == !holds_key(old(self).items@, register.spec_hash()),
    {
        let key: u64 = register.hash();
        match self.slots.get(key) {
            Some(i) => {
                assert(self.slots@.dom().contains(key));
                false
            },
            None => {
                self.slots.insert(key, self.items.len());
                self.items.push(register);
                proof {
                    assert forall|other: u64| #[trigger]
                        self.slots@.dom().contains(other) implies self.slots@[other]
                        < self.items@.len() && self.items@[self.slots@[other] as int].spec_hash()
                        == other by {
                        if other != key {
                            assert(old(self).slots@.dom().contains(other));
                        }
                    }
                }
                true
            },
        }
    }
}

/// The operators that a block can call.
#[derive(Clone, Copy, Debug, PartialEq, Eq, Structural, Hash)]
pub enum MechFunction {
    MathAdd,
    MathSubtract,
    MathMultiply,
    MathDivide,
    MathExponent,
    CompareGreaterThan,
    CompareLessThan,
    CompareGreaterThanEqual,
    CompareLessThanEqual,
    CompareEqual,
    CompareNotEqual,
    LogicAnd,
    LogicOr,
    LogicXor,
    StatsSum,
    SetAny,
    TableRange,
    TableHorizontalConcatenate,
    TableVerticalConcatenate,
    TableCopy,
    TableSet,
    TableAddRow,
    TableSplit,
}

/// The operators by the hashes of their names.
#[derive(Debug)]
pub struct Functions {
    pub list: Vec<MechFunction>,
    pub slots: IdMap,
}

impl View for Functions {
    type V = Map<u64, MechFunction>;

    open spec fn view(&self) -> Map<u64, MechFunction> {
        Map::new(
            |name: u64| self.slots@.dom().contains(name),
            |name: u64| self.list@[self.slots@[name] as int],
        )
    }
}

/// The operators of the standard library, by the hashes of their names.
/// Where two names had the same hash, the operator named later would win.
pub open spec fn standard_library() -> Map<u64, MechFunction> {
    Map::<u64, MechFunction>::empty().insert(
        spec_hash_chars("math/add"@),
        MechFunction::MathAdd,
    ).insert(spec_hash_chars("math/subtract"@), MechFunction::MathSubtract).insert(
        spec_hash_chars("math/multiply"@),
        MechFunction::MathMultiply,
    ).insert(spec_hash_chars("math/divide"@), MechFunction::MathDivide).insert(
        spec_hash_chars("math/exponent"@),
        MechFunction::MathExponent,
    ).insert(spec_hash_chars("compare/greater-than"@), MechFunction::CompareGreaterThan).insert(
        spec_hash_chars("compare/less-than"@),
        MechFunction::CompareLessThan,
    ).insert(
        spec_hash_chars("compare/greater-than-equal"@),
        MechFunction::CompareGreaterThanEqual,
    ).insert(
        spec_hash_chars("compare/less-than-equal"@),
        MechFunction::CompareLessThanEqual,
    ).insert(spec_hash_chars("compare/equal"@), MechFunction::CompareEqual).insert(
        spec_hash_chars("compare/not-equal"@),
        MechFunction::CompareNotEqual,
    ).insert(spec_hash_chars("logic/and"@), MechFunction::LogicAnd).insert(
        spec_hash_chars("logic/or"@),
        MechFunction::LogicOr,
    ).insert(spec_hash_chars("logic/xor"@), MechFunction::LogicXor).insert(
        spec_hash_chars("stats/sum"@),
        MechFunction::StatsSum,
    ).insert(spec_hash_chars("set/any"@), MechFunction::SetAny).insert(
        spec_hash_chars("table/range"@),
        MechFunction::TableRange,
    ).insert(
        spec_hash_chars("table/horizontal-concatenate"@),
        MechFunction::TableHorizontalConcatenate,
    ).insert(
        spec_hash_chars("table/vertical-concatenate"@),
        MechFunction::TableVerticalConcatenate,
    ).insert(spec_hash_chars("table/copy"@), MechFunction::TableCopy).insert(
        spec_hash_chars("table/set"@),
        MechFunction::TableSet,
    ).insert(spec_hash_chars("table/add-row"@), MechFunction::TableAddRow).insert(
        spec_hash_chars("table/split"@),
        MechFunction::TableSplit,
    )
}

impl Functions {
    /// Every name leads to a place in the list of operators.
    pub open spec fn wf(&self) -> bool {
        forall|name: u64| #[trigger] self.slots@.dom().contains(name) ==> self.slots@[name] < self.list@.len()
    }

    /// No operators: no name is known, and the list is empty.
    pub fn new() -> (f: Functions)
        ensures
            f.wf(),
            f@ == Map::<u64, MechFunction>::empty(),
            f.list@.len() == 0,
    {
        let f = Functions { list: Vec::new(), slots: IdMap::new() };
        assert(f@ =~= Map::<u64, MechFunction>::empty());
        f
    }

    /// Puts an operator under a name. An operator that had the name before
    /// is no longer found.
    pub fn register(&mut self, name: u64, function: MechFunction)
        requires
            old(self).wf(),
        ensures
            final(self).wf(),
            final(self)@ == old(self)@.insert(name, function),
    {
        self.slots.insert(name, self.list.len());
        self.list.push(function);
        proof {
            assert forall|other: u64| #[trigger]
                self.slots@.dom().contains(other) implies self.slots@[other] < self.list@.len() by {
                if other != name {
                    assert(old(self).slots@.dom().contains(other));
                }
            }
            assert forall|other: u64| self@.dom().contains(other) implies #[trigger] self@[other]
                == old(self)@.insert(name, function)[other] by {
                if other != name {
                    assert(old(self).slots@.dom().contains(other));
                }
            }
            assert(self@ =~= old(self)@.insert(name, function));
        }
    }

    /// The operator with this name.
    pub fn get(&self, name: u64) -> (f: Option<MechFunction>)
        requires
            self.wf(),
        ensures
            f == (if self@.dom().contains(name) {
                Some(self@[name])
            } else {
                None
            }),
    {
        match self.slots.get(name) {
            Some(slot) => {
                assert(self.slots@.dom().contains(name));
                Some(self.list[slot])
            },
            None => None,
        }
    }

    /// Registers the operators of the standard library.
    pub fn load_standard_library() -> (f: Functions)
        ensures
            f.wf(),
            f@ == standard_library(),
    {
        let mut f = Functions::new();
        f.register(hash_str("math/add"), MechFunction::MathAdd);
        f.register(hash_str("math/subtract"), MechFunction::MathSubtract);
        f.register(hash_str("math/multiply"), MechFunction::MathMultiply);
        f.register(hash_str("math/divide"), MechFunction::MathDivide);
        f.register(hash_str("math/exponent"), MechFunction::MathExponent);
        f.register(hash_str("compare/greater-than"), MechFunction::CompareGreaterThan);
        f.register(hash_str("compare/less-than"), MechFunction::CompareLessThan);
        f.register(hash_str("compare/greater-than-equal"), MechFunction::CompareGreaterThanEqual);
        f.register(hash_str("compare/less-than-equal"), MechFunction::CompareLessThanEqual);
        f.register(hash_str("compare/equal"), MechFunction::CompareEqual);
        f.register(hash_str("compare/not-equal"), MechFunction::CompareNotEqual);
        f.register(hash_str("logic/and"), MechFunction::LogicAnd);
        f.register(hash_str("logic/or"), MechFunction::LogicOr);
        f.register(hash_str("logic/xor"), MechFunction::LogicXor);
        f.register(hash_str("stats/sum"), MechFunction::StatsSum);
        f.register(hash_str("set/any"), MechFunction::SetAny);
        f.register(hash_str("table/range"), MechFunction::TableRange);
        f.register(
            hash_str("table/horizontal-concatenate"),
            MechFunction::TableHorizontalConcatenate,
        );
        f.register(hash_str("table/vertical-concatenate"), MechFunction::TableVerticalConcatenate);
        f.register(hash_str("table/copy"), MechFunction::TableCopy);
        f.register(hash_str("table/set"), MechFunction::TableSet);
        f.register(hash_str("table/add-row"), MechFunction::TableAddRow);
        f.register(hash_str("table/split"), MechFunction::TableSplit);
        f
    }
}


/// A block.
///
/// A block has local tables, the registers it reads (`input`), those it
/// writes (`output`), and those among the latter that must exist before it
/// can run (`output_dependencies`). Each input and each output dependency
/// has a flag that says whether it is ready. The plan lists the
/// transformations that run when the block is solved, each by its group and
/// its place in the group. Changes to global tables are queued until the
/// network takes them.
#[derive(Debug)]
pub struct Block {
    pub id: u64,
    pub state: BlockState,
    pub text: String,
    pub name: String,
    pub input: RegisterSet,
    pub ready: Vec<bool>,
    /// The inputs that the block watches: they are ready only once they
    /// have changed.
    pub watching: RegisterSet,
    pub output: RegisterSet,
    pub output_dependencies: RegisterSet,
    pub output_dependencies_ready: Vec<bool>,
    pub tables: TableRegistry,
    pub transformations: Vec<(String, Vec<Transformation>)>,
    pub plan: Vec<(usize, usize)>,
    pub changes: Vec<Change>,
    pub errors: Vec<MechError>,
    /// The table that the block waits for, if it waits for one.
    pub pending: Option<TableId>,
    pub triggered: usize,
}

/// What a block holds, as mathematics sees it.
#[verifier::ext_equal]
pub struct BlockModel {
    pub id: u64,
    pub state: BlockState,
    /// The source text of the block and its name, as its author gave them.
    pub text: Seq<char>,
    pub name: Seq<char>,
    pub tables: Map<u64, TableModel>,
    pub input: Seq<Register>,
    pub ready: Seq<bool>,
    pub watching: Seq<Register>,
    pub output: Seq<Register>,
    pub output_dependencies: Seq<Register>,
    pub output_dependencies_ready: Seq<bool>,
    pub plan: Seq<(usize, usize)>,
    pub changes: Seq<ChangeModel>,
    /// The errors, each with the id of what raised it.
    pub errors: Seq<(u64, Failure)>,
    pub pending: Option<TableId>,
    pub triggered: usize,
}

/// The register that stands for a table as a whole.
pub open spec fn whole_table(table_id: TableId) -> Register {
    Register { table_id, row: TableIndex::All, column: TableIndex::All }
}

/// The selector under which an argument is watched: a selector that names
/// its positions through a table, or none at all, watches every position.
pub open spec fn watched(index: TableIndex) -> TableIndex {
    match index {
        TableIndex::Table(_) | TableIndex::Absent => TableIndex::All,
        _ => index,
    }
}

/// The selector under which an output is announced: a selector that names
/// its positions through a table announces every position.
pub open spec fn announced(index: TableIndex) -> TableIndex {
    match index {
        TableIndex::Table(_) => TableIndex::All,
        _ => index,
    }
}

/// The id of the local table in which a block keeps, for what it watches,
/// which rows had changed.
pub open spec fn whenever_table() -> u64 {
    spec_hash_chars("~"@)
}

/// A constant with its unit: a number in grams or kilograms becomes a
/// quantity of the domain of mass, a thousand times as large for
/// kilograms. Anything else stays as it is.
pub open spec fn with_unit(value: Value, unit: u64) -> Value {
    let scale: int = if unit == spec_hash_chars("g"@) {
        0
    } else {
        3
    };
    if (unit == spec_hash_chars("g"@) || unit == spec_hash_chars("kg"@))
        && value.spec_as_quantity() is Some {
        let q = value.spec_as_quantity()->0;
        Value::Quantity(Quantity { mantissa: q.mantissa, range: clamp(q.range + scale), domain: 1 })
    } else {
        value
    }
}

impl BlockModel {
    /// The block with one more input, not ready, unless it is an input already.
    pub open spec fn with_input(self, register: Register) -> BlockModel {
        BlockModel {
            input: with_register(self.input, register),
            ready: with_flag(self.input, self.ready, register),
            ..self
        }
    }

    /// The block with a register among the inputs that it watches.
    pub open spec fn with_watch(self, register: Register) -> BlockModel {
        BlockModel { watching: with_register(self.watching, register), ..self.with_input(register) }
    }

    /// The block with one more output, unless it is an output already.
    pub open spec fn with_output(self, register: Register) -> BlockModel {
        BlockModel { output: with_register(self.output, register), ..self }
    }

    /// The block with one more output dependency, not ready, unless it is one
    /// already.
    pub open spec fn with_output_dependency(self, register: Register) -> BlockModel {
        BlockModel {
            output_dependencies: with_register(self.output_dependencies, register),
            output_dependencies_ready: with_flag(
                self.output_dependencies,
                self.output_dependencies_ready,
                register,
            ),
            ..self
        }
    }

    /// The block with one more change in its queue.
    pub open spec fn with_change(self, change: ChangeModel) -> BlockModel {
        BlockModel { changes: self.changes.push(change), ..self }
    }

    /// The block with one more error on its list.
    pub open spec fn with_error(self, id: u64, failure: Failure) -> BlockModel {
        BlockModel { errors: self.errors.push((id, failure)), ..self }
    }

    /// The block with the table among its own, in place of one of the same id.
    pub open spec fn with_table(self, table: TableModel) -> BlockModel {
        BlockModel { tables: self.tables.insert(table.id, table), ..self }
    }

    /// The block with one more step at the end of its plan.
    pub open spec fn with_step(self, place: (usize, usize)) -> BlockModel {
        BlockModel { plan: self.plan.push(place), ..self }
    }

    /// The block with the first `n` registers among the inputs that it
    /// watches.
    pub open spec fn with_inputs(self, registers: Seq<Register>, n: nat) -> BlockModel
        decreases n,
    {
        if n == 0 {
            self
        } else {
            self.with_inputs(registers, (n - 1) as nat).with_watch(registers[n - 1])
        }
    }

    /// The block with the first `n` arguments among its inputs, as far as
    /// they read global tables.
    pub open spec fn with_arguments(
        self,
        arguments: Seq<(u64, TableId, TableIndex, TableIndex)>,
        n: nat,
    ) -> BlockModel
        decreases n,
    {
        if n == 0 {
            self
        } else {
            let before = self.with_arguments(arguments, (n - 1) as nat);
            let argument = arguments[n - 1];
            if argument.1 is Global {
                before.with_input(
                    Register {
                        table_id: argument.1,
                        row: watched(argument.2),
                        column: watched(argument.3),
                    },
                )
            } else {
                before
            }
        }
    }

    /// The block after one transformation was registered at `place`.
    ///
    /// - A new global table is queued as a change and announced as an
    ///   output; a new local table is made at once, in place of one with
    ///   the same id.
    /// - An alias for a column of a global table is queued as a change, and
    ///   the column is announced as an output. An alias for a column of a
    ///   local table is bound at once.
    /// - A constant is written into the first cell of its table: at once
    ///   for a local table, as a queued change for a global one.
    /// - A table that the block sets is an output, and must exist before
    ///   the block runs.
    /// - What the block watches goes among its inputs, and the step goes
    ///   into the plan.
    /// - The arguments of a function that read global tables go among the
    ///   inputs, its output among the outputs if it is global, and the step
    ///   goes into the plan.
    /// - Selections and table references go into the plan.
    /// - What fails leaves an error on the block.
    pub open spec fn registered(self, tfm: Transformation, place: (usize, usize)) -> BlockModel {
        match tfm {
            Transformation::NewTable { table_id, rows, columns } => match table_id {
                TableId::Global(id) => self.with_change(
                    ChangeModel::NewTable { table_id: id, rows, columns },
                ).with_output(whole_table(table_id)),
                TableId::Local(id) => if rows * columns > usize::MAX {
                    self.with_error(
                        self.id,
                        Failure::Kind(
                            MechErrorKind::UnhandledTableShape(TableShape::Matrix(rows, columns)),
                        ),
                    )
                } else {
                    self.with_table(TableModel::blank(id, rows as nat, columns as nat))
                },
            },
            Transformation::ColumnAlias { table_id, column_ix, column_alias } => match table_id {
                TableId::Global(id) => self.with_change(
                    ChangeModel::SetColumnAlias { table_id: id, column_ix, column_alias },
                ).with_output(
                    Register {
                        table_id,
                        row: TableIndex::All,
                        column: TableIndex::Alias(column_alias),
                    },
                ),
                TableId::Local(id) => if !self.tables.dom().contains(id) {
                    self.with_error(self.id, Failure::Kind(MechErrorKind::MissingTable(table_id)))
                } else {
                    let t = self.tables[id];
                    if !(1 <= column_ix <= t.cols()) {
                        self.with_error(
                            self.id,
                            Failure::Kind(
                                MechErrorKind::LinearSubscriptOutOfBounds(
                                    column_ix,
                                    t.cols() as usize,
                                ),
                            ),
                        )
                    } else if t.column_of_alias(column_alias) is Some && t.column_of_alias(
                        column_alias,
                    ) != Some(column_ix as int) {
                        self.with_error(
                            self.id,
                            Failure::Kind(MechErrorKind::DuplicateAlias(column_alias)),
                        )
                    } else {
                        self.with_table(t.set_column_alias(column_ix as int, column_alias))
                    }
                },
            },
            Transformation::Constant { table_id, value, unit } => match table_id {
                TableId::Global(id) => self.with_change(
                    ChangeModel::SetCells {
                        table_id: id,
                        values: seq![
                            (TableIndex::Index(1), TableIndex::Index(1), with_unit(value, unit)),
                        ],
                    },
                ),
                TableId::Local(id) => if !self.tables.dom().contains(id) {
                    self.with_error(self.id, Failure::Kind(MechErrorKind::MissingTable(table_id)))
                } else {
                    self.with_table(
                        self.tables[id].set(
                            TableIndex::Index(1),
                            TableIndex::Index(1),
                            with_unit(value, unit),
                        ),
                    )
                },
            },
            Transformation::SetRegister { table_id, .. } => self.with_output(
                whole_table(table_id),
            ).with_output_dependency(whole_table(table_id)),
            Transformation::Whenever { table_id, registers, .. } => {
                let scratch = self.with_table(TableModel::blank(whenever_table(), 0, 1));
                (if table_id is Global {
                    scratch.with_inputs(registers@, registers@.len())
                } else {
                    scratch
                }).with_step(place)
            },
            Transformation::Function { name, arguments, out } => {
                let announcing = if out.0 is Global {
                    self.with_output(
                        Register { table_id: out.0, row: announced(out.1), column: announced(out.2) },
                    ).with_output(whole_table(out.0))
                } else {
                    self
                };
                announcing.with_arguments(arguments@, arguments@.len()).with_step(place)
            },
            Transformation::Select { .. } | Transformation::TableReference { .. } => self.with_step(
                place,
            ),
            Transformation::RowAlias { .. } => self,
        }
    }

    /// The block after the first `n` transformations of a group were
    /// registered.
    pub open spec fn registered_all(self, tfms: Seq<Transformation>, group: usize, n: nat) -> BlockModel
        decreases n,
    {
        if n == 0 {
            self
        } else {
            self.registered_all(tfms, group, (n - 1) as nat).registered(
                tfms[n - 1],
                (group, (n - 1) as usize),
            )
        }
    }

    /// Whether the block would run: it is neither disabled nor in error,
    /// and every input and every output dependency is ready.
    pub open spec fn is_ready(self) -> bool {
        &&& self.state != BlockState::Error
        &&& self.state != BlockState::Disabled
        &&& self.errors.len() == 0
        &&& forall|i: int| 0 <= i < self.ready.len() ==> #[trigger] self.ready[i]
        &&& forall|i: int|
            0 <= i < self.output_dependencies_ready.len() ==> #[trigger] self.output_dependencies_ready[i]
    }
}

/// The errors as mathematics sees them.
pub open spec fn failures(errors: Seq<MechError>) -> Seq<(u64, Failure)> {
    Seq::new(errors.len(), |i: int| (errors[i].id, Failure::of(errors[i].kind)))
}

impl View for Block {
    type V = BlockModel;

    open spec fn view(&self) -> BlockModel {
        BlockModel {
            id: self.id,
            state: self.state,
            text: self.text@,
            name: self.name@,
            tables: self.tables@,
            input: self.input.items@,
            ready: self.ready@,
            watching: self.watching.items@,
            output: self.output.items@,
            output_dependencies: self.output_dependencies.items@,
            output_dependencies_ready: self.output_dependencies_ready@,
            plan: self.plan@,
            changes: crate::database::views(self.changes@),
            errors: failures(self.errors@),
            pending: self.pending,
            triggered: self.triggered,
        }
    }
}

/// The text of the transformations, as `Debug` writes them.
pub uninterp spec fn debug_form(transformations: Seq<(String, Vec<Transformation>)>) -> Seq<char>;

/// Formats the transformations with `format!` and `{:?}`, which goes by the
/// derived `Debug` of each value: the text depends on the transformations
/// alone.
#[verifier::external_body]
fn format_transformations(transformations: &Vec<(String, Vec<Transformation>)>) -> (text: String)
    ensures
        text@ == debug_form(transformations@),
{
    format!("{:?}", transformations)
}

impl Block {
    /// The sets are well formed and there is a flag for every input and for
    /// every output dependency.
    pub open spec fn wf(&self) -> bool {
        &&& self.input.wf()
        &&& self.watching.wf()
        &&& self.output.wf()
        &&& self.output_dependencies.wf()
        &&& self.tables.wf()
        &&& self.ready@.len() == self.input.items@.len()
        &&& self.output_dependencies_ready@.len() == self.output_dependencies.items@.len()
    }

    /// A new block: no text, no name, no tables, no registers, no plan.
    pub fn new(capacity: usize) -> (block: Block)
        ensures
            block.wf(),
            block@ == (BlockModel {
                id: 0,
                state: BlockState::New,
                text: Seq::empty(),
                name: Seq::empty(),
                tables: Map::empty(),
                input: Seq::empty(),
                ready: Seq::empty(),
                watching: Seq::empty(),
                output: Seq::empty(),
                output_dependencies: Seq::empty(),
                output_dependencies_ready: Seq::empty(),
                plan: Seq::empty(),
                changes: Seq::empty(),
                errors: Seq::empty(),
                pending: None,
                triggered: 0,
            }),
            block.transformations@.len() == 0,
    {
        let block = Block {
            id: 0,
            state: BlockState::New,
            text: String::new(),
            name: String::new(),
            input: RegisterSet::new(),
            ready: Vec::new(),
            watching: RegisterSet::new(),
            output: RegisterSet::new(),
            output_dependencies: RegisterSet::new(),
            output_dependencies_ready: Vec::new(),
            tables: TableRegistry::new(),
            transformations: Vec::new(),
            plan: Vec::new(),
            changes: Vec::new(),
            errors: Vec::new(),
            pending: None,
            triggered: 0,
        };
        assert(block@.changes =~= Seq::empty());
        assert(block@.errors =~= Seq::empty());
        block
    }

    /// Gives the block the id that its transformations stand for: the
    /// 56-bit hash of their text.
    pub fn gen_id(&mut self)
        ensures
            final(self).id == spec_hash_chars(debug_form(old(self).transformations@)),
            final(self)@ == (BlockModel { id: final(self).id, ..old(self)@ }),
            final(self).transformations == old(self).transformations,
            final(self).wf() == old(self).wf(),
    {
        let words: String = format_transformations(&self.transformations);
        self.id = hash_str(words.as_str());
    }

    /// Whether the block would run. A block with errors goes into the error
    /// state; a block that would run is marked as ready.
    pub fn is_ready(&mut self) -> (ready: bool)
        requires
            old(self).wf(),
        ensures
            final(self).wf(),
            ready == old(self)@.is_ready(),
            final(self)@ == (BlockModel {
                state: if ready {
                    BlockState::Ready
                } else if old(self)@.errors.len() > 0 && old(self).state != BlockState::Disabled {
                    BlockState::Error
                } else {
                    old(self).state
                },
                ..old(self)@
            }),
            final(self).transformations == old(self).transformations,
    {
        if self.state == BlockState::Error || self.state == BlockState::Disabled {
            false
        } else if self.errors.len() > 0 {
            self.state = BlockState::Error;
            false
        } else {
            let mut all: bool = true;
            let mut i: usize = 0;
            while i < self.ready.len()
                invariant
                    i <= self.ready@.len(),
                    all == (forall|j: int| 0 <= j < i ==> #[trigger] self.ready@[j]),
                decreases self.ready@.len() - i,
            {
                if !self.ready[i] {
                    all = false;
                }
                i += 1;
            }
            let mut k: usize = 0;
            while k < self.output_dependencies_ready.len()
                invariant
                    k <= self.output_dependencies_ready@.len(),
                    all == ((forall|j: int| 0 <= j < self.ready@.len() ==> #[trigger] self.ready@[j])
                        && (forall|j: int|
                        0 <= j < k ==> #[trigger] self.output_dependencies_ready@[j])),
                decreases self.output_dependencies_ready@.len() - k,
            {
                if !self.output_dependencies_ready[k] {
                    all = false;
                }
                k += 1;
            }
            if all {
                self.state = BlockState::Ready;
            }
            all
        }
    }
}


impl Block {
    /// Puts a register among the inputs; it is not ready.
    pub fn add_input(&mut self, register: Register)
        requires
            old(self).wf(),
        ensures
            final(self).wf(),
            final(self)@ == old(self)@.with_input(register),
            final(self).transformations == old(self).transformations,
    {
        if self.input.insert(register) {
            self.ready.push(false);
        }
    }

    /// Puts a register among the inputs that the block watches.
    pub fn add_watch(&mut self, register: Register)
        requires
            old(self).wf(),
        ensures
            final(self).wf(),
            final(self)@ == old(self)@.with_watch(register),
            final(self).transformations == old(self).transformations,
    {
        self.add_input(register);
        let _ = self.watching.insert(register);
    }

    /// Puts a register among the outputs.
    pub fn add_output(&mut self, register: Register)
        requires
            old(self).wf(),
        ensures
            final(self).wf(),
            final(self)@ == old(self)@.with_output(register),
            final(self).transformations == old(self).transformations,
    {
        let _ = self.output.insert(register);
    }

    /// Puts a register among the output dependencies; it is not ready.
    pub fn add_output_dependency(&mut self, register: Register)
        requires
            old(self).wf(),
        ensures
            final(self).wf(),
            final(self)@ == old(self)@.with_output_dependency(register),
            final(self).transformations == old(self).transformations,
    {
        if self.output_dependencies.insert(register) {
            self.output_dependencies_ready.push(false);
        }
    }

    /// Queues a change for the network to take.
    pub fn queue(&mut self, change: Change)
        requires
            old(self).wf(),
        ensures
            final(self).wf(),
            final(self)@ == old(self)@.with_change(change@),
            final(self).transformations == old(self).transformations,
            final(self).plan == old(self).plan,
    {
        self.changes.push(change);
        assert(crate::database::views(self.changes@) =~= crate::database::views(
            old(self).changes@,
        ).push(change@));
    }

    /// Attaches an error to the block.
    pub fn fail(&mut self, id: u64, kind: MechErrorKind)
        requires
            old(self).wf(),
        ensures
            final(self).wf(),
            final(self)@ == old(self)@.with_error(id, Failure::of(kind)),
            final(self).transformations == old(self).transformations,
            final(self).plan == old(self).plan,
    {
        self.errors.push(MechError { id, kind });
        assert(failures(self.errors@) =~= failures(old(self).errors@).push((id, Failure::of(kind))));
    }

    /// Puts a local table in the place of its id.
    pub fn put_table(&mut self, table: Table)
        requires
            old(self).wf(),
            table.wf(),
        ensures
            final(self).wf(),
            final(self)@ == old(self)@.with_table(table@),
            final(self).transformations == old(self).transformations,
            final(self).plan == old(self).plan,
    {
        match self.tables.register(table) {
            None => {},
            Some(back) => {
                self.tables.put(back);
            },
        }
    }

    /// A constant with its unit.
    fn apply_unit(value: Value, unit: u64) -> (q: Value)
        ensures
            q == with_unit(value, unit),
    {
        let grams: bool = unit == hash_str("g");
        let kilograms: bool = unit == hash_str("kg");
        if grams || kilograms {
            match value.as_quantity() {
                Some(x) => {
                    let scale: i128 = if grams {
                        0
                    } else {
                        3
                    };
                    let range: i128 = x.range as i128 + scale;
                    let range: i64 = if range > i64::MAX as i128 {
                        i64::MAX
                    } else {
                        range as i64
                    };
                    Value::Quantity(Quantity { mantissa: x.mantissa, range, domain: 1 })
                },
                None => value,
            }
        } else {
            value
        }
    }

    /// Registers one transformation, which stands at `place`.
    fn register_one(&mut self, tfm: &Transformation, place: (usize, usize))
        requires
            old(self).wf(),
        ensures
            final(self).wf(),
            final(self)@ == old(self)@.registered(*tfm, place),
            final(self).transformations == old(self).transformations,
    {
        match tfm {
            Transformation::NewTable { table_id, rows, columns } => {
                match table_id {
                    TableId::Global(id) => {
                        self.queue(Change::NewTable { table_id: *id, rows: *rows, columns: *columns });
                        self.add_output(
                            Register {
                                table_id: *table_id,
                                row: TableIndex::All,
                                column: TableIndex::All,
                            },
                        );
                    },
                    TableId::Local(id) => {
                        match rows.checked_mul(*columns) {
                            Some(_) => {
                                self.put_table(Table::new(*id, *rows, *columns));
                            },
                            None => {
                                self.fail(
                                    self.id,
                                    MechErrorKind::UnhandledTableShape(
                                        TableShape::Matrix(*rows, *columns),
                                    ),
                                );
                            },
                        }
                    },
                }
            },
            Transformation::ColumnAlias { table_id, column_ix, column_alias } => {
                match table_id {
                    TableId::Global(id) => {
                        self.queue(
                            Change::SetColumnAlias {
                                table_id: *id,
                                column_ix: *column_ix,
                                column_alias: *column_alias,
                            },
                        );
                        self.add_output(
                            Register {
                                table_id: *table_id,
                                row: TableIndex::All,
                                column: TableIndex::Alias(*column_alias),
                            },
                        );
                    },
                    TableId::Local(id) => {
                        match self.tables.take(*id) {
                            None => {
                                self.fail(self.id, MechErrorKind::MissingTable(*table_id));
                            },
                            Some(mut table) => {
                                let outcome = table.set_column_alias(*column_ix, *column_alias);
                                self.tables.put(table);
                                assert(self.tables@ =~= old(self).tables@.insert(*id, table@));
                                match outcome {
                                    Ok(()) => {},
                                    Err(e) => {
                                        assert(self.tables@ =~= old(self).tables@);
                                        self.fail(self.id, e);
                                    },
                                }
                            },
                        }
                    },
                }
            },
            Transformation::Constant { table_id, value, unit } => {
                let q: Value = Block::apply_unit(*value, *unit);
                match table_id {
                    TableId::Global(id) => {
                        let mut values: Vec<(TableIndex, TableIndex, Value)> = Vec::new();
                        values.push((TableIndex::Index(1), TableIndex::Index(1), q));
                        assert(values@ =~= seq![(TableIndex::Index(1), TableIndex::Index(1), q)]);
                        self.queue(Change::SetCells { table_id: *id, values });
                    },
                    TableId::Local(id) => {
                        match self.tables.take(*id) {
                            None => {
                                self.fail(self.id, MechErrorKind::MissingTable(*table_id));
                            },
                            Some(mut table) => {
                                table.set(&TableIndex::Index(1), &TableIndex::Index(1), q);
                                self.tables.put(table);
                                assert(self.tables@ =~= old(self).tables@.insert(*id, table@));
                            },
                        }
                    },
                }
            },
            Transformation::SetRegister { table_id, .. } => {
                let all = Register {
                    table_id: *table_id,
                    row: TableIndex::All,
                    column: TableIndex::All,
                };
                self.add_output(all);
                self.add_output_dependency(all);
            },
            Transformation::Whenever { table_id, registers, .. } => {
                assert(0 * 1 == 0) by (nonlinear_arith);
                self.put_table(Table::new(hash_str("~"), 0, 1));
                match table_id {
                    TableId::Global(_) => {
                        let ghost scratch = self@;
                        let mut i: usize = 0;
                        while i < registers.len()
                            invariant
                                i <= registers@.len(),
                                self.wf(),
                                self.transformations == old(self).transformations,
                                self.text@ == old(self).text@,
                                self.name@ == old(self).name@,
                                self@ == scratch.with_inputs(registers@, i as nat),
                            decreases registers@.len() - i,
                        {
                            self.add_watch(registers[i]);
                            i += 1;
                        }
                    },
                    TableId::Local(_) => {},
                }
                self.plan.push(place);
            },
            Transformation::Function { name, arguments, out } => {
                match out.0 {
                    TableId::Global(_) => {
                        let row: TableIndex = match out.1 {
                            TableIndex::Table(_) => TableIndex::All,
                            x => x,
                        };
                        let column: TableIndex = match out.2 {
                            TableIndex::Table(_) => TableIndex::All,
                            x => x,
                        };
                        self.add_output(Register { table_id: out.0, row, column });
                        self.add_output(
                            Register {
                                table_id: out.0,
                                row: TableIndex::All,
                                column: TableIndex::All,
                            },
                        );
                    },
                    TableId::Local(_) => {},
                }
                let ghost announcing = self@;
                let mut i: usize = 0;
                while i < arguments.len()
                    invariant
                        i <= arguments@.len(),
                        self.wf(),
                        self.transformations == old(self).transformations,
                        self.text@ == old(self).text@,
                        self.name@ == old(self).name@,
                        self@ == announcing.with_arguments(arguments@, i as nat),
                    decreases arguments@.len() - i,
                {
                    let argument = arguments[i];
                    match argument.1 {
                        TableId::Global(_) => {
                            let row: TableIndex = match argument.2 {
                                TableIndex::Table(_) | TableIndex::Absent => TableIndex::All,
                                x => x,
                            };
                            let column: TableIndex = match argument.3 {
                                TableIndex::Table(_) | TableIndex::Absent => TableIndex::All,
                                x => x,
                            };
                            self.add_input(Register { table_id: argument.1, row, column });
                        },
                        TableId::Local(_) => {},
                    }
                    i += 1;
                }
                self.plan.push(place);
            },
            Transformation::Select { .. } | Transformation::TableReference { .. } => {
                self.plan.push(place);
            },
            Transformation::RowAlias { .. } => {},
        }
    }

    /// Registers a group of transformations with the text they were made
    /// from: each is registered in turn, and the group is kept.
    pub fn register_transformations(&mut self, tfm_tuple: (String, Vec<Transformation>))
        requires
            old(self).wf(),
        ensures
            final(self).wf(),
            final(self)@ == old(self)@.registered_all(
                tfm_tuple.1@,
                old(self).transformations@.len() as usize,
                tfm_tuple.1@.len(),
            ),
            final(self).transformations@ == old(self).transformations@.push(tfm_tuple),
    {
        let group: usize = self.transformations.len();
        let mut i: usize = 0;
        while i < tfm_tuple.1.len()
            invariant
                i <= tfm_tuple.1@.len(),
                self.wf(),
                self.transformations == old(self).transformations,
                group == old(self).transformations@.len(),
                self@ == old(self)@.registered_all(tfm_tuple.1@, group, i as nat),
            decreases tfm_tuple.1@.len() - i,
        {
            self.register_one(&tfm_tuple.1[i], (group, i));
            i += 1;
        }
        self.transformations.push(tfm_tuple);
    }
}

} // verus!
