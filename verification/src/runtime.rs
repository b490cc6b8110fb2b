//! The network of blocks: who is woken by which change, and the loop that
//! runs ready blocks until none is left.

use vstd::prelude::*;
use crate::block::{Block, BlockModel, BlockState, Functions, MechFunction, Transformation};
use crate::database::{
    apply_transaction, attempts, lemma_record_all, Change, ChangeModel, Interner, Transaction, views,
};
use crate::error::{MechError, MechErrorKind};
use crate::solver::lookup;
use crate::table::{TableId, TableIndex, TableModel};

verus! {

/// A column of a global table, as the database reports it when it changed.
/// The column zero stands for the table as a whole.
#[derive(Clone, Copy, Debug, PartialEq, Eq, Structural, Hash)]
pub struct Register {
    pub table: u64,
    pub column: u64,
}

impl Register {
    /// The register of no column.
    pub fn new() -> (r: Register)
        ensures
            r.table == 0,
            r.column == 0,
    {
        Register { table: 0, column: 0 }
    }

    /// The table and the column that the register names.
    pub fn get(&self) -> (r: (u64, u64))
        ensures
            r == (self.table, self.column),
    {
        (self.table, self.column)
    }

    /// Points the register at a column of a table.
    pub fn set(&mut self, index: &(u64, u64))
        ensures
            final(self).table == index.0,
            final(self).column == index.1,
    {
        let (table, column) = index;
        self.table = *table;
        self.column = *column;
    }

    /// The id of the table.
    pub fn table(&self) -> (t: u64)
        ensures
            t == self.table,
    {
        self.table
    }

    /// The position of the column.
    pub fn column(&self) -> (c: u64)
        ensures
            c == self.column,
    {
        self.column
    }
}

/// An input of a block: the block by its position in the network and the
/// input by its position in the block, both counted from one.
#[derive(Clone, Copy, Debug, PartialEq, Eq, Structural, Hash)]
pub struct Address {
    pub block: usize,
    pub register: usize,
}

/// A conduit between blocks: what leaves the output at one address arrives
/// at the input at the other.
#[derive(Clone, Copy, Debug, PartialEq, Eq, Structural, Hash)]
pub struct Pipe {
    pub input: Address,
    pub output: Address,
}

/// A bound on the data that a block works with.
#[derive(Debug, PartialEq, Eq)]
pub enum Constraint {
    /// Watches a column of a table and brings it in on a register.
    Scan { table: u64, column: u64, register: u64 },
    /// Writes what is on a register to a column of a table.
    Insert { table: u64, column: u64, register: u64 },
    /// Applies an operator to the registers named and leaves the result on
    /// another.
    Function { operation: MechFunction, parameters: Vec<u64>, output: u64 },
}

/// Whether every bit of `checking` is set in `solved`.
pub fn check_bits(solved: u64, checking: u64) -> (b: bool)
    ensures
        b == (solved & checking == checking),
{
    solved & checking == checking
}

/// Whether some bit of `checking` is set in `solved`.
pub fn has_any_bits(solved: u64, checking: u64) -> (b: bool)
    ensures
        b == (solved & checking != 0),
{
    solved & checking != 0
}

/// `solved` with the bit at position `bit` set.
pub fn set_bit(solved: u64, bit: usize) -> (r: u64)
    requires
        bit < 64,
    ensures
        r == solved | (1u64 << (bit as u64)),
{
    solved | (1u64 << (bit as u64))
}

/// `solved` with the bit at position `bit` cleared.
pub fn clear_bit(solved: u64, bit: usize) -> (r: u64)
    requires
        bit < 64,
    ensures
        r == solved & !(1u64 << (bit as u64)),
{
    solved & !(1u64 << (bit as u64))
}

/// Whether the bit at position `bit` is set in `solved`.
pub fn check_bit(solved: u64, bit: usize) -> (b: bool)
    requires
        bit < 64,
    ensures
        b == (solved & (1u64 << (bit as u64)) != 0),
{
    solved & (1u64 << (bit as u64)) != 0
}

/// A bit that was set is found set, one that was cleared is found cleared,
/// and neither touches another bit.
pub proof fn lemma_bit_helpers(solved: u64, bit: u64, other: u64)
    requires
        bit < 64,
        other < 64,
    ensures
        (solved | (1u64 << bit)) & (1u64 << bit) != 0,
        (solved & !(1u64 << bit)) & (1u64 << bit) == 0,
        other != bit ==> ((solved | (1u64 << bit)) & (1u64 << other) != 0) == (solved & (1u64
            << other) != 0),
        other != bit ==> ((solved & !(1u64 << bit)) & (1u64 << other) != 0) == (solved & (1u64
            << other) != 0),
{
    assert((solved | (1u64 << bit)) & (1u64 << bit) != 0) by (bit_vector)
        requires
            bit < 64,
    ;
    assert((solved & !(1u64 << bit)) & (1u64 << bit) == 0) by (bit_vector)
        requires
            bit < 64,
    ;
    if other != bit {
        assert(((solved | (1u64 << bit)) & (1u64 << other) != 0) == (solved & (1u64 << other)
            != 0)) by (bit_vector)
            requires
                bit < 64,
                other < 64,
                other != bit,
        ;
        assert(((solved & !(1u64 << bit)) & (1u64 << other) != 0) == (solved & (1u64 << other)
            != 0)) by (bit_vector)
            requires
                bit < 64,
                other < 64,
                other != bit,
        ;
    }
}


/// Whether a change to a column of a global table reaches a register: the
/// register is of that table, and it names the column by its position or
/// by its alias, or it names every column. A change to the table as a whole
/// reaches every register of the table. Rows are not told apart.
pub open spec fn dirties(changed: Register, aliases: Seq<Option<u64>>, register: crate::block::Register) -> bool {
    register.table_id == TableId::Global(changed.table) && (changed.column == 0
        || match register.column {
        TableIndex::Index(k) => k == 0 || k as u64 == changed.column,
        TableIndex::Alias(a) => 1 <= changed.column <= aliases.len() && aliases[changed.column
            - 1] == Some(a),
        _ => true,
    })
}

/// Whether the change reaches one of the registers.
pub open spec fn dirties_any(
    changed: Register,
    aliases: Seq<Option<u64>>,
    registers: Seq<crate::block::Register>,
) -> bool {
    exists|i: int| 0 <= i < registers.len() && dirties(changed, aliases, #[trigger] registers[i])
}

/// The flags of the registers after a change: a register that the change
/// reaches is ready.
pub open spec fn flags_after(
    changed: Register,
    aliases: Seq<Option<u64>>,
    registers: Seq<crate::block::Register>,
    flags: Seq<bool>,
) -> Seq<bool> {
    Seq::new(flags.len(), |i: int| flags[i] || dirties(changed, aliases, registers[i]))
}

impl BlockModel {
    /// The block after a change to a column of a global table: every input
    /// and every output dependency that the change reaches is ready, and a
    /// block that was done and is reached starts over.
    pub open spec fn woken(self, changed: Register, aliases: Seq<Option<u64>>) -> BlockModel {
        BlockModel {
            ready: flags_after(changed, aliases, self.input, self.ready),
            output_dependencies_ready: flags_after(
                changed,
                aliases,
                self.output_dependencies,
                self.output_dependencies_ready,
            ),
            state: if self.state == BlockState::Done && (dirties_any(changed, aliases, self.input)
                || dirties_any(changed, aliases, self.output_dependencies)) {
                BlockState::New
            } else {
                self.state
            },
            ..self
        }
    }

    /// Whether the block has not run since it was last woken, and does not
    /// wait for a table that is still missing.
    pub open spec fn armed(self, global: Map<u64, TableModel>) -> bool {
        match self.state {
            BlockState::New | BlockState::Ready => true,
            BlockState::Unsatisfied => self.pending is Some && lookup(
                self.tables,
                global,
                self.pending->0,
            ) is Some,
            _ => false,
        }
    }

    /// Whether the network would run the block in the next round: the
    /// block is armed and ready.
    pub open spec fn eligible(self, global: Map<u64, TableModel>) -> bool {
        self.is_ready() && self.armed(global)
    }

    /// The block after the network has looked at it: a block that will run
    /// is marked as ready, and an armed block with errors is in error.
    pub open spec fn inspected(self, global: Map<u64, TableModel>) -> BlockModel {
        BlockModel {
            state: if self.eligible(global) {
                BlockState::Ready
            } else if self.armed(global) && self.errors.len() > 0 {
                BlockState::Error
            } else {
                self.state
            },
            ..self
        }
    }

    /// The block without its queued changes.
    pub open spec fn flushed(self) -> BlockModel {
        BlockModel { changes: Seq::empty(), ..self }
    }
}

/// Whether a change reaches a register.
fn reaches(changed: &Register, aliases: &Vec<Option<u64>>, register: &crate::block::Register) -> (b:
    bool)
    ensures
        b == dirties(*changed, aliases@, *register),
{
    match register.table_id {
        TableId::Global(t) => {
            if t != changed.table {
                false
            } else if changed.column == 0 {
                true
            } else {
                match register.column {
                    TableIndex::Index(k) => k == 0 || k as u64 == changed.column,
                    TableIndex::Alias(a) => {
                        if changed.column <= aliases.len() as u64 {
                            match aliases[(changed.column - 1) as usize] {
                                Some(b) => a == b,
                                None => false,
                            }
                        } else {
                            false
                        }
                    },
                    _ => true,
                }
            }
        },
        TableId::Local(_) => false,
    }
}

impl Block {
    /// Marks as ready what a change to a column of a global table reaches.
    /// `aliases` are the aliases of the columns of that table.
    pub fn wake(&mut self, changed: &Register, aliases: &Vec<Option<u64>>)
        requires
            old(self).wf(),
        ensures
            final(self).wf(),
            final(self).transformations == old(self).transformations,
            final(self)@ == old(self)@.woken(*changed, aliases@),
    {
        let mut any: bool = false;
        let mut i: usize = 0;
        while i < self.input.items.len()
            invariant
                i <= self.input.items@.len(),
                old(self).wf(),
                self.input == old(self).input,
                self.watching == old(self).watching,
                self.output == old(self).output,
                self.output_dependencies == old(self).output_dependencies,
                self.output_dependencies_ready == old(self).output_dependencies_ready,
                self.tables == old(self).tables,
                self.transformations == old(self).transformations,
                self.text@ == old(self).text@,
                self.name@ == old(self).name@,
                self.plan == old(self).plan,
                self.changes == old(self).changes,
                self.errors == old(self).errors,
                self.pending == old(self).pending,
                self.triggered == old(self).triggered,
                self.id == old(self).id,
                self.state == old(self).state,
                self.ready@.len() == old(self).ready@.len(),
                forall|j: int|
                    0 <= j < i ==> #[trigger] self.ready@[j] == (old(self).ready@[j] || dirties(
                        *changed,
                        aliases@,
                        self.input.items@[j],
                    )),
                forall|j: int| i <= j < self.ready@.len() ==> #[trigger] self.ready@[j] == old(self).ready@[j],
                any == dirties_any(*changed, aliases@, self.input.items@.take(i as int)),
            decreases self.input.items@.len() - i,
        {
            let ghost items = self.input.items@;
            if reaches(changed, aliases, &self.input.items[i]) {
                self.ready.set(i, true);
                any = true;
                assert(items.take(i + 1)[i as int] == items[i as int]);
            } else {
                assert forall|j: int| 0 <= j < i + 1 implies !dirties(
                    *changed,
                    aliases@,
                    #[trigger] items.take(i + 1)[j],
                ) || any by {
                    if j < i {
                        assert(items.take(i as int)[j] == items[j]);
                    }
                }
            }
            proof {
                if any && !dirties_any(*changed, aliases@, items.take(i + 1)) {
                    if dirties_any(*changed, aliases@, items.take(i as int)) {
                        let w = choose|w: int|
                            0 <= w < i && dirties(*changed, aliases@, #[trigger] items.take(i as int)[w]);
                        assert(items.take(i + 1)[w] == items.take(i as int)[w]);
                    }
                }
            }
            i += 1;
        }
        assert(self.input.items@.take(i as int) =~= self.input.items@);
        let ghost any_input = any;
        let mut any_output: bool = false;
        let mut k: usize = 0;
        while k < self.output_dependencies.items.len()
            invariant
                k <= self.output_dependencies.items@.len(),
                old(self).wf(),
                self.input == old(self).input,
                self.watching == old(self).watching,
                self.output == old(self).output,
                self.output_dependencies == old(self).output_dependencies,
                self.tables == old(self).tables,
                self.transformations == old(self).transformations,
                self.text@ == old(self).text@,
                self.name@ == old(self).name@,
                self.plan == old(self).plan,
                self.changes == old(self).changes,
                self.errors == old(self).errors,
                self.pending == old(self).pending,
                self.triggered == old(self).triggered,
                self.id == old(self).id,
                self.state == old(self).state,
                self.ready@ == flags_after(
                    *changed,
                    aliases@,
                    old(self).input.items@,
                    old(self).ready@,
                ),
                self.output_dependencies_ready@.len() == old(self).output_dependencies_ready@.len(),
                forall|j: int|
                    0 <= j < k ==> #[trigger] self.output_dependencies_ready@[j] == (old(
                        self,
                    ).output_dependencies_ready@[j] || dirties(
                        *changed,
                        aliases@,
                        self.output_dependencies.items@[j],
                    )),
                forall|j: int|
                    k <= j < self.output_dependencies_ready@.len()
                        ==> #[trigger] self.output_dependencies_ready@[j] == old(
                        self,
                    ).output_dependencies_ready@[j],
                any_output == dirties_any(
                    *changed,
                    aliases@,
                    self.output_dependencies.items@.take(k as int),
                ),
            decreases self.output_dependencies.items@.len() - k,
        {
            let ghost items = self.output_dependencies.items@;
            if reaches(changed, aliases, &self.output_dependencies.items[k]) {
                self.output_dependencies_ready.set(k, true);
                any_output = true;
                assert(items.take(k + 1)[k as int] == items[k as int]);
            } else {
                assert forall|j: int| 0 <= j < k + 1 implies !dirties(
                    *changed,
                    aliases@,
                    #[trigger] items.take(k + 1)[j],
                ) || any_output by {
                    if j < k {
                        assert(items.take(k as int)[j] == items[j]);
                    }
                }
            }
            proof {
                if any_output && !dirties_any(*changed, aliases@, items.take(k + 1)) {
                    if dirties_any(*changed, aliases@, items.take(k as int)) {
                        let w = choose|w: int|
                            0 <= w < k && dirties(*changed, aliases@, #[trigger] items.take(k as int)[w]);
                        assert(items.take(k + 1)[w] == items.take(k as int)[w]);
                    }
                }
            }
            k += 1;
        }
        assert(self.output_dependencies.items@.take(k as int) =~= self.output_dependencies.items@);
        if (any || any_output) && self.state == BlockState::Done {
            self.state = BlockState::New;
        }
        assert(self@.output_dependencies_ready =~= old(self)@.woken(
            *changed,
            aliases@,
        ).output_dependencies_ready);
        assert(self@ =~= old(self)@.woken(*changed, aliases@));
    }

    /// Whether the network would run the block in the next round. A block
    /// that would run is marked as ready.
    pub fn is_eligible(&mut self, store: &Interner) -> (b: bool)
        requires
            old(self).wf(),
            store.wf(),
        ensures
            final(self).wf(),
            final(self).transformations == old(self).transformations,
            b == old(self)@.eligible(store.tables@),
            final(self)@ == old(self)@.inspected(store.tables@),
    {
        let gate: bool = match self.state {
            BlockState::New | BlockState::Ready => true,
            BlockState::Unsatisfied => match self.pending {
                Some(t) => match self.find(store, t) {
                    Some(_) => true,
                    None => false,
                },
                None => false,
            },
            _ => false,
        };
        if gate {
            self.is_ready()
        } else {
            false
        }
    }

    /// Hands the queued changes over as a transaction; none stay queued.
    pub fn take_changes(&mut self) -> (txn: Transaction)
        requires
            old(self).wf(),
        ensures
            final(self).wf(),
            final(self).transformations == old(self).transformations,
            final(self)@ == old(self)@.flushed(),
            views(txn.changes@) == old(self)@.changes,
    {
        let mut changes: Vec<Change> = Vec::new();
        std::mem::swap(&mut changes, &mut self.changes);
        assert(views(self.changes@) =~= Seq::<ChangeModel>::empty());
        Transaction::from_changeset(changes)
    }

    /// Applies the queued changes to the tables of the database, and
    /// reports the columns that changed or the first change that failed.
    /// No change stays queued.
    pub fn process_changes(&mut self, store: &mut Interner) -> (r: Result<Vec<Register>, MechErrorKind>)
        requires
            old(self).wf(),
            old(store).wf(),
        ensures
            final(self).wf(),
            final(store).wf(),
            final(self).transformations == old(self).transformations,
            final(self)@ == old(self)@.flushed(),
            final(store).capacity == old(store).capacity,
            final(store).tables@ == apply_transaction(old(store).tables@, old(self)@.changes).tables,
            final(store).log() == old(store).log().record_all(
                attempts(old(store).tables@, old(self)@.changes),
            ),
            match r {
                Ok(registers) => apply_transaction(old(store).tables@, old(self)@.changes).result
                    == Ok::<Seq<Register>, MechErrorKind>(registers@),
                Err(e) => apply_transaction(old(store).tables@, old(self)@.changes).result == Err::<
                    Seq<Register>,
                    MechErrorKind,
                >(e),
            },
    {
        let txn: Transaction = self.take_changes();
        store.intern_transaction(&txn)
    }
}


/// The bound on the rounds of one run of the network.
pub const MAX_ITER: usize = 10000;

/// The blocks of a program, in the order in which they were registered, and
/// the operators they can call.
#[derive(Debug)]
pub struct Runtime {
    pub blocks: Vec<Block>,
    pub functions: Functions,
}

/// What the blocks hold, as mathematics sees them.
pub open spec fn models(blocks: Seq<Block>) -> Seq<BlockModel> {
    Seq::new(blocks.len(), |i: int| blocks[i]@)
}

/// The transformations of each block.
pub open spec fn scripts(blocks: Seq<Block>) -> Seq<Seq<(String, Vec<Transformation>)>> {
    Seq::new(blocks.len(), |i: int| blocks[i].transformations@)
}

/// The aliases of the columns of a table of the database; none for a table
/// that does not exist.
pub open spec fn aliases_of(tables: Map<u64, TableModel>, table: u64) -> Seq<Option<u64>> {
    if tables.dom().contains(table) {
        tables[table].aliases
    } else {
        Seq::empty()
    }
}

/// The blocks after a change to a column of a global table.
pub open spec fn woken_all(blocks: Seq<BlockModel>, changed: Register, aliases: Seq<Option<u64>>) -> Seq<
    BlockModel,
> {
    Seq::new(blocks.len(), |i: int| blocks[i].woken(changed, aliases))
}

/// The blocks after the first `n` changes to columns, one after another.
pub open spec fn woken_by(
    blocks: Seq<BlockModel>,
    registers: Seq<Register>,
    tables: Map<u64, TableModel>,
    n: nat,
) -> Seq<BlockModel>
    decreases n,
{
    if n == 0 {
        blocks
    } else {
        woken_all(
            woken_by(blocks, registers, tables, (n - 1) as nat),
            registers[n - 1],
            aliases_of(tables, registers[n - 1].table),
        )
    }
}

/// Whether the table of a register exists: a local table always counts as
/// existing, a global table counts if the database has it.
pub open spec fn table_exists(tables: Map<u64, TableModel>, register: crate::block::Register) -> bool {
    match register.table_id {
        TableId::Global(t) => tables.dom().contains(t),
        TableId::Local(_) => true,
    }
}

/// The table of the first register from `from` on whose table does not
/// exist.
pub open spec fn first_missing(
    tables: Map<u64, TableModel>,
    registers: Seq<crate::block::Register>,
    from: int,
) -> Option<TableId>
    decreases registers.len() - from,
{
    if from < 0 || from >= registers.len() {
        None
    } else if !table_exists(tables, registers[from]) {
        Some(registers[from].table_id)
    } else {
        first_missing(tables, registers, from + 1)
    }
}

impl BlockModel {
    /// The block as it joins the network. An input that reads a global
    /// table which exists is ready, unless the block watches it: what is
    /// watched is ready only once it has changed. An output dependency
    /// whose table exists is ready. A block that reads a table which does
    /// not exist is unsatisfied and waits for the first such table.
    pub open spec fn primed(self, tables: Map<u64, TableModel>) -> BlockModel {
        BlockModel {
            ready: Seq::new(
                self.ready.len(),
                |i: int|
                    self.ready[i] || (self.input[i].table_id is Global && table_exists(
                        tables,
                        self.input[i],
                    ) && !crate::block::holds_key(self.watching, self.input[i].spec_hash())),
            ),
            output_dependencies_ready: Seq::new(
                self.output_dependencies_ready.len(),
                |i: int|
                    self.output_dependencies_ready[i] || (
                    self.output_dependencies[i].table_id is Global && table_exists(
                        tables,
                        self.output_dependencies[i],
                    )),
            ),
            state: if first_missing(tables, self.input, 0) is Some {
                BlockState::Unsatisfied
            } else {
                self.state
            },
            pending: if first_missing(tables, self.input, 0) is Some {
                first_missing(tables, self.input, 0)
            } else {
                self.pending
            },
            ..self
        }
    }
}

impl Block {
    /// Makes the block ready to join the network: see
    /// [`BlockModel::primed`].
    pub fn prime(&mut self, store: &Interner)
        requires
            old(self).wf(),
            store.wf(),
        ensures
            final(self).wf(),
            final(self).transformations == old(self).transformations,
            final(self)@ == old(self)@.primed(store.tables@),
    {
        let mut missing: Option<TableId> = None;
        let mut i: usize = 0;
        while i < self.input.items.len()
            invariant
                i <= self.input.items@.len(),
                old(self).wf(),
                store.wf(),
                self.input == old(self).input,
                self.watching == old(self).watching,
                self.output == old(self).output,
                self.output_dependencies == old(self).output_dependencies,
                self.output_dependencies_ready == old(self).output_dependencies_ready,
                self.tables == old(self).tables,
                self.transformations == old(self).transformations,
                self.text@ == old(self).text@,
                self.name@ == old(self).name@,
                self.plan == old(self).plan,
                self.changes == old(self).changes,
                self.errors == old(self).errors,
                self.pending == old(self).pending,
                self.triggered == old(self).triggered,
                self.id == old(self).id,
                self.state == old(self).state,
                self.ready@.len() == old(self).ready@.len(),
                forall|j: int|
                    0 <= j < i ==> #[trigger] self.ready@[j] == old(self)@.primed(
                        store.tables@,
                    ).ready[j],
                forall|j: int| i <= j < self.ready@.len() ==> #[trigger] self.ready@[j] == old(self).ready@[j],
                match missing {
                    Some(t) => first_missing(store.tables@, self.input.items@, 0) == Some(t),
                    None => first_missing(store.tables@, self.input.items@, 0) == first_missing(
                        store.tables@,
                        self.input.items@,
                        i as int,
                    ),
                },
            decreases self.input.items@.len() - i,
        {
            let register: crate::block::Register = self.input.items[i];
            match register.table_id {
                TableId::Global(t) => {
                    if store.tables.contains(t) {
                        if !self.watching.contains(&register) {
                            self.ready.set(i, true);
                        }
                    } else {
                        match missing {
                            None => {
                                missing = Some(register.table_id);
                            },
                            Some(_) => {},
                        }
                    }
                },
                TableId::Local(_) => {},
            }
            i += 1;
        }
        assert(self.ready@ =~= old(self)@.primed(store.tables@).ready);
        let mut k: usize = 0;
        while k < self.output_dependencies.items.len()
            invariant
                k <= self.output_dependencies.items@.len(),
                old(self).wf(),
                store.wf(),
                self.input == old(self).input,
                self.watching == old(self).watching,
                self.output == old(self).output,
                self.output_dependencies == old(self).output_dependencies,
                self.tables == old(self).tables,
                self.transformations == old(self).transformations,
                self.text@ == old(self).text@,
                self.name@ == old(self).name@,
                self.plan == old(self).plan,
                self.changes == old(self).changes,
                self.errors == old(self).errors,
                self.pending == old(self).pending,
                self.triggered == old(self).triggered,
                self.id == old(self).id,
                self.state == old(self).state,
                self.ready@ == old(self)@.primed(store.tables@).ready,
                self.output_dependencies_ready@.len() == old(self).output_dependencies_ready@.len(),
                forall|j: int|
                    0 <= j < k ==> #[trigger] self.output_dependencies_ready@[j] == old(
                        self,
                    )@.primed(store.tables@).output_dependencies_ready[j],
                forall|j: int|
                    k <= j < self.output_dependencies_ready@.len()
                        ==> #[trigger] self.output_dependencies_ready@[j] == old(
                        self,
                    ).output_dependencies_ready@[j],
            decreases self.output_dependencies.items@.len() - k,
        {
            match self.output_dependencies.items[k].table_id {
                TableId::Global(t) => {
                    if store.tables.contains(t) {
                        self.output_dependencies_ready.set(k, true);
                    }
                },
                TableId::Local(_) => {},
            }
            k += 1;
        }
        assert(self.output_dependencies_ready@ =~= old(self)@.primed(
            store.tables@,
        ).output_dependencies_ready);
        match missing {
            Some(t) => {
                self.state = BlockState::Unsatisfied;
                self.pending = Some(t);
            },
            None => {},
        }
        assert(self@ =~= old(self)@.primed(store.tables@));
    }
}

/// The inputs among the first `n` of the block at place `b`, counted from
/// zero, that a change reaches, each as an address.
pub open spec fn block_subscribers(
    changed: Register,
    aliases: Seq<Option<u64>>,
    inputs: Seq<crate::block::Register>,
    b: int,
    n: nat,
) -> Seq<Address>
    decreases n,
{
    if n == 0 {
        Seq::empty()
    } else {
        let earlier = block_subscribers(changed, aliases, inputs, b, (n - 1) as nat);
        if dirties(changed, aliases, inputs[n - 1]) {
            earlier.push(Address { block: (b + 1) as usize, register: n as usize })
        } else {
            earlier
        }
    }
}

/// The inputs of the first `n` blocks that a change reaches, block by block.
pub open spec fn network_subscribers(
    changed: Register,
    aliases: Seq<Option<u64>>,
    blocks: Seq<Block>,
    n: nat,
) -> Seq<Address>
    decreases n,
{
    if n == 0 {
        Seq::empty()
    } else {
        network_subscribers(changed, aliases, blocks, (n - 1) as nat) + block_subscribers(
            changed,
            aliases,
            blocks[n - 1].input.items@,
            n - 1,
            blocks[n - 1].input.items@.len(),
        )
    }
}

impl Runtime {
    /// The operators and every block are well formed.
    pub open spec fn wf(&self) -> bool {
        &&& self.functions.wf()
        &&& forall|i: int| 0 <= i < self.blocks@.len() ==> (#[trigger] self.blocks@[i]).wf()
    }

    /// A network without blocks and without operators.
    pub fn new() -> (runtime: Runtime)
        ensures
            runtime.wf(),
            runtime.blocks@.len() == 0,
            runtime.functions@ == Map::<u64, MechFunction>::empty(),
    {
        Runtime { blocks: Vec::new(), functions: Functions::new() }
    }

    /// Makes the operators of the standard library known to the network.
    pub fn load_standard_library(&mut self)
        requires
            old(self).wf(),
        ensures
            final(self).wf(),
            final(self).blocks == old(self).blocks,
            final(self).functions@ == crate::block::standard_library(),
    {
        self.functions = Functions::load_standard_library();
    }

    /// The inputs that a change reaches: each by the place of its block in
    /// the network and its own place in the block, both counted from one,
    /// block by block and input by input.
    pub fn subscribers(&self, changed: &Register, store: &Interner) -> (addresses: Vec<Address>)
        requires
            self.wf(),
            store.wf(),
        ensures
            addresses@ == network_subscribers(
                *changed,
                aliases_of(store.tables@, changed.table),
                self.blocks@,
                self.blocks@.len(),
            ),
    {
        let none: Vec<Option<u64>> = Vec::new();
        let aliases: &Vec<Option<u64>> = match store.tables.get(changed.table) {
            Some(table) => &table.aliases,
            None => &none,
        };
        let mut addresses: Vec<Address> = Vec::new();
        let total: usize = self.blocks.len();
        let mut b: usize = 0;
        while b < total
            invariant
                b <= total,
                total == self.blocks@.len(),
                aliases@ == aliases_of(store.tables@, changed.table),
                addresses@ == network_subscribers(*changed, aliases@, self.blocks@, b as nat),
            decreases total - b,
        {
            let block: &Block = &self.blocks[b];
            let count: usize = block.input.items.len();
            let ghost earlier = addresses@;
            let mut i: usize = 0;
            assert(addresses@ =~= earlier + block_subscribers(
                *changed,
                aliases@,
                block.input.items@,
                b as int,
                0,
            ));
            while i < count
                invariant
                    b < total,
                    total == self.blocks@.len(),
                    *block == self.blocks@[b as int],
                    i <= count,
                    count == block.input.items@.len(),
                    aliases@ == aliases_of(store.tables@, changed.table),
                    earlier == network_subscribers(*changed, aliases@, self.blocks@, b as nat),
                    addresses@ == earlier + block_subscribers(
                        *changed,
                        aliases@,
                        block.input.items@,
                        b as int,
                        i as nat,
                    ),
                decreases count - i,
            {
                if reaches(changed, aliases, &block.input.items[i]) {
                    addresses.push(Address { block: b + 1, register: i + 1 });
                }
                assert(addresses@ =~= earlier + block_subscribers(
                    *changed,
                    aliases@,
                    block.input.items@,
                    b as int,
                    (i + 1) as nat,
                ));
                i += 1;
            }
            b += 1;
        }
        addresses
    }

    /// Marks as ready, in every block, what a change to a column of a
    /// global table reaches.
    pub fn process_change(&mut self, changed: &Register, store: &Interner)
        requires
            old(self).wf(),
            store.wf(),
        ensures
            final(self).wf(),
            final(self).functions == old(self).functions,
            scripts(final(self).blocks@) == scripts(old(self).blocks@),
            models(final(self).blocks@) == woken_all(
                models(old(self).blocks@),
                *changed,
                aliases_of(store.tables@, changed.table),
            ),
    {
        let none: Vec<Option<u64>> = Vec::new();
        let aliases: &Vec<Option<u64>> = match store.tables.get(changed.table) {
            Some(table) => &table.aliases,
            None => &none,
        };
        let n: usize = self.blocks.len();
        let mut i: usize = 0;
        while i < n
            invariant
                i <= n,
                n == self.blocks@.len(),
                n == old(self).blocks@.len(),
                self.functions == old(self).functions,
                aliases@ == aliases_of(store.tables@, changed.table),
                forall|j: int| 0 <= j < n ==> (#[trigger] self.blocks@[j]).wf(),
                forall|j: int|
                    0 <= j < n ==> (#[trigger] self.blocks@[j]).transformations == old(
                        self,
                    ).blocks@[j].transformations,
                forall|j: int|
                    0 <= j < i ==> (#[trigger] self.blocks@[j])@ == old(self).blocks@[j]@.woken(
                        *changed,
                        aliases@,
                    ),
                forall|j: int| i <= j < n ==> (#[trigger] self.blocks@[j])@ == old(self).blocks@[j]@,
            decreases n - i,
        {
            let mut block = Block::new(0);
            std::mem::swap(&mut block, &mut self.blocks[i]);
            block.wake(changed, aliases);
            self.blocks.set(i, block);
            i += 1;
        }
        assert(models(self.blocks@) =~= woken_all(
            models(old(self).blocks@),
            *changed,
            aliases_of(store.tables@, changed.table),
        ));
        assert(scripts(self.blocks@) =~= scripts(old(self).blocks@));
    }

    /// Marks as ready, in every block, what changes to columns reach, one
    /// change after another.
    pub fn process_changes(&mut self, registers: &Vec<Register>, store: &Interner)
        requires
            old(self).wf(),
            store.wf(),
        ensures
            final(self).wf(),
            final(self).functions == old(self).functions,
            scripts(final(self).blocks@) == scripts(old(self).blocks@),
            models(final(self).blocks@) == woken_by(
                models(old(self).blocks@),
                registers@,
                store.tables@,
                registers@.len(),
            ),
    {
        let mut i: usize = 0;
        while i < registers.len()
            invariant
                i <= registers@.len(),
                self.wf(),
                store.wf(),
                self.functions == old(self).functions,
                scripts(self.blocks@) == scripts(old(self).blocks@),
                models(self.blocks@) == woken_by(
                    models(old(self).blocks@),
                    registers@,
                    store.tables@,
                    i as nat,
                ),
            decreases registers@.len() - i,
        {
            self.process_change(&registers[i], store);
            i += 1;
        }
    }

    /// Takes a block into the network. The block gets its id, what it
    /// reads and needs is ready as far as the tables exist, and the changes
    /// it has queued are applied. Returns the id, or the first change that
    /// failed.
    pub fn register_block(&mut self, block: Block, store: &mut Interner) -> (r: Result<u64, MechErrorKind>)
        requires
            old(self).wf(),
            old(store).wf(),
            block.wf(),
        ensures
            final(self).wf(),
            final(store).wf(),
            final(self).functions == old(self).functions,
            final(store).capacity == old(store).capacity,
            final(self).blocks@.len() == old(self).blocks@.len() + 1,
            ({
                let id = crate::hash::spec_hash_chars(
                    crate::block::debug_form(block.transformations@),
                );
                let joining = (BlockModel { id, ..block@ }).primed(old(store).tables@);
                let outcome = apply_transaction(old(store).tables@, joining.changes);
                let joined = models(old(self).blocks@).push(joining.flushed());
                &&& final(store).tables@ == outcome.tables
                &&& final(store).log() == old(store).log().record_all(
                    attempts(old(store).tables@, joining.changes),
                )
                &&& scripts(final(self).blocks@) == scripts(old(self).blocks@).push(
                    block.transformations@,
                )
                &&& match outcome.result {
                    Ok(registers) => r == Ok::<u64, MechErrorKind>(id) && models(final(self).blocks@)
                        == woken_by(joined, registers, outcome.tables, registers.len()),
                    Err(e) => r == Err::<u64, MechErrorKind>(e) && models(final(self).blocks@)
                        == joined,
                }
            }),
    {
        let mut block = block;
        block.gen_id();
        block.prime(store);
        let id: u64 = block.id;
        let outcome = block.process_changes(store);
        let ghost joined = models(self.blocks@).push(block@);
        let ghost script = block.transformations@;
        self.blocks.push(block);
        assert(models(self.blocks@) =~= joined);
        assert(scripts(self.blocks@) =~= scripts(old(self).blocks@).push(script));
        match outcome {
            Ok(registers) => {
                self.process_changes(&registers, store);
                Ok(id)
            },
            Err(e) => Err(e),
        }
    }
}


/// `a + b`, held within a machine word.
pub open spec fn capped(a: usize, b: usize) -> usize {
    if a + b > usize::MAX {
        usize::MAX
    } else {
        (a + b) as usize
    }
}

/// What the network has done in the first part of a round: the blocks, the
/// changes that the blocks which ran have queued, how many blocks ran, and
/// the id of the block that ran last.
pub struct Pass {
    pub blocks: Seq<BlockModel>,
    pub changes: Seq<ChangeModel>,
    pub executions: usize,
    pub last: u64,
}

/// The first part of a round, up to block `n`: each block that would run is
/// solved, in the order of registration, against the tables as they were
/// when the round began. Its queued changes are collected.
pub open spec fn solving(
    blocks: Seq<BlockModel>,
    scripts: Seq<Seq<(String, Vec<Transformation>)>>,
    tables: Map<u64, TableModel>,
    functions: Map<u64, MechFunction>,
    last: u64,
    n: nat,
) -> Pass
    decreases n,
{
    if n == 0 {
        Pass { blocks, changes: Seq::empty(), executions: 0, last }
    } else {
        let before = solving(blocks, scripts, tables, functions, last, (n - 1) as nat);
        let block = before.blocks[n - 1];
        if block.eligible(tables) {
            let solved = block.inspected(tables).solved(tables, functions, scripts[n - 1]);
            Pass {
                blocks: before.blocks.update(n - 1, solved.flushed()),
                changes: before.changes + solved.changes,
                executions: capped(before.executions, 1),
                last: solved.id,
            }
        } else {
            Pass { blocks: before.blocks.update(n - 1, block.inspected(tables)), ..before }
        }
    }
}

/// What one round has done.
pub struct Round {
    pub blocks: Seq<BlockModel>,
    pub tables: Map<u64, TableModel>,
    pub executions: usize,
    pub last: u64,
    pub result: Result<(), MechErrorKind>,
    /// The changes that the round tried to apply, in their order.
    pub attempted: Seq<ChangeModel>,
}

/// One round: the blocks that would run are solved, the changes they have
/// queued are applied as one transaction, and the blocks are woken by the
/// columns that changed.
pub open spec fn round(
    blocks: Seq<BlockModel>,
    scripts: Seq<Seq<(String, Vec<Transformation>)>>,
    tables: Map<u64, TableModel>,
    functions: Map<u64, MechFunction>,
    last: u64,
) -> Round {
    let pass = solving(blocks, scripts, tables, functions, last, blocks.len());
    let outcome = apply_transaction(tables, pass.changes);
    match outcome.result {
        Ok(registers) => Round {
            blocks: woken_by(pass.blocks, registers, outcome.tables, registers.len()),
            tables: outcome.tables,
            executions: pass.executions,
            last: pass.last,
            result: Ok(()),
            attempted: attempts(tables, pass.changes),
        },
        Err(e) => Round {
            blocks: pass.blocks,
            tables: outcome.tables,
            executions: pass.executions,
            last: pass.last,
            result: Err(e),
            attempted: attempts(tables, pass.changes),
        },
    }
}

/// Where a run of the network stands.
pub enum Status {
    /// The last round ran a block; there may be more to do.
    Running,
    /// No block was ready: the network has settled.
    Quiescent,
    /// A transaction failed.
    Failed(MechErrorKind),
}

/// A run of the network after some rounds.
pub struct Run {
    pub blocks: Seq<BlockModel>,
    pub tables: Map<u64, TableModel>,
    pub executions: usize,
    pub last: u64,
    pub status: Status,
    /// The changes that the rounds tried to apply, in their order.
    pub attempted: Seq<ChangeModel>,
}

/// The run after at most `n` rounds. It ends with the first round in which
/// no block ran, or in which the transaction failed.
pub open spec fn rounds(
    blocks: Seq<BlockModel>,
    scripts: Seq<Seq<(String, Vec<Transformation>)>>,
    tables: Map<u64, TableModel>,
    functions: Map<u64, MechFunction>,
    n: nat,
) -> Run
    decreases n,
{
    if n == 0 {
        Run {
            blocks,
            tables,
            executions: 0,
            last: 0,
            status: Status::Running,
            attempted: Seq::empty(),
        }
    } else {
        let before = rounds(blocks, scripts, tables, functions, (n - 1) as nat);
        if !(before.status is Running) {
            before
        } else {
            let next = round(before.blocks, scripts, before.tables, functions, before.last);
            Run {
                blocks: next.blocks,
                tables: next.tables,
                executions: capped(before.executions, next.executions),
                last: next.last,
                status: match next.result {
                    Err(e) => Status::Failed(e),
                    Ok(()) => if next.executions == 0 {
                        Status::Quiescent
                    } else {
                        Status::Running
                    },
                },
                attempted: before.attempted + next.attempted,
            }
        }
    }
}

proof fn lemma_views_append(a: Seq<Change>, b: Seq<Change>)
    ensures
        views(a + b) == views(a) + views(b),
{
    assert(views(a + b) =~= views(a) + views(b));
}

impl Runtime {
    /// The first part of a round: solves every block that would run, and
    /// collects the changes that the blocks have queued. Returns the
    /// changes, the number of blocks that ran, and the id of the block that
    /// ran last, or `last` if none ran.
    pub fn solve_ready(&mut self, store: &Interner, last: u64) -> (r: (Vec<Change>, usize, u64))
        requires
            old(self).wf(),
            store.wf(),
        ensures
            final(self).wf(),
            final(self).functions == old(self).functions,
            scripts(final(self).blocks@) == scripts(old(self).blocks@),
            ({
                let pass = solving(
                    models(old(self).blocks@),
                    scripts(old(self).blocks@),
                    store.tables@,
                    old(self).functions@,
                    last,
                    old(self).blocks@.len(),
                );
                &&& models(final(self).blocks@) == pass.blocks
                &&& views(r.0@) == pass.changes
                &&& r.1 == pass.executions
                &&& r.2 == pass.last
            }),
    {
        let mut changes: Vec<Change> = Vec::new();
        let mut executions: usize = 0;
        let mut latest: u64 = last;
        let n: usize = self.blocks.len();
        let ghost start = models(self.blocks@);
        let ghost texts = scripts(self.blocks@);
        let mut i: usize = 0;
        assert(views(changes@) =~= Seq::<ChangeModel>::empty());
        while i < n
            invariant
                i <= n,
                n == self.blocks@.len(),
                n == start.len(),
                store.wf(),
                self.wf(),
                self.functions == old(self).functions,
                start == models(old(self).blocks@),
                texts == scripts(old(self).blocks@),
                scripts(self.blocks@) == texts,
                models(self.blocks@) == solving(
                    start,
                    texts,
                    store.tables@,
                    self.functions@,
                    last,
                    i as nat,
                ).blocks,
                views(changes@) == solving(
                    start,
                    texts,
                    store.tables@,
                    self.functions@,
                    last,
                    i as nat,
                ).changes,
                executions == solving(
                    start,
                    texts,
                    store.tables@,
                    self.functions@,
                    last,
                    i as nat,
                ).executions,
                latest == solving(start, texts, store.tables@, self.functions@, last, i as nat).last,
            decreases n - i,
        {
            let ghost before = models(self.blocks@);
            let ghost scripts_before = scripts(self.blocks@);
            let mut block = Block::new(0);
            assert(self.blocks@[i as int].wf());
            assert(before[i as int] == self.blocks@[i as int]@);
            assert(texts[i as int] == self.blocks@[i as int].transformations@);
            std::mem::swap(&mut block, &mut self.blocks[i]);
            if block.is_eligible(store) {
                block.solve(store, &self.functions);
                let mut txn: Transaction = block.take_changes();
                let ghost collected = changes@;
                let ghost queued = txn.changes@;
                changes.append(&mut txn.changes);
                proof {
                    lemma_views_append(collected, queued);
                }
                if executions < usize::MAX {
                    executions += 1;
                }
                latest = block.id;
            }
            let ghost after = block@;
            let ghost script = block.transformations@;
            self.blocks.set(i, block);
            assert(models(self.blocks@) =~= before.update(i as int, after));
            assert(scripts(self.blocks@) =~= scripts_before);
            i += 1;
        }
        (changes, executions, latest)
    }
}


proof fn lemma_rounds_stop(
    blocks: Seq<BlockModel>,
    scripts: Seq<Seq<(String, Vec<Transformation>)>>,
    tables: Map<u64, TableModel>,
    functions: Map<u64, MechFunction>,
    stopped: nat,
    n: nat,
)
    requires
        stopped <= n,
        !(rounds(blocks, scripts, tables, functions, stopped).status is Running),
    ensures
        rounds(blocks, scripts, tables, functions, n) == rounds(
            blocks,
            scripts,
            tables,
            functions,
            stopped,
        ),
    decreases n,
{
    if stopped < n {
        lemma_rounds_stop(blocks, scripts, tables, functions, stopped, (n - 1) as nat);
    }
}

impl Runtime {
    /// One round: solves the blocks that would run, applies the changes
    /// they have queued as one transaction, and wakes the blocks by the
    /// columns that changed. Returns the number of blocks that ran, the id
    /// of the block that ran last, and whether the transaction went well.
    pub fn round(&mut self, store: &mut Interner, last: u64) -> (r: (
        usize,
        u64,
        Result<(), MechErrorKind>,
    ))
        requires
            old(self).wf(),
            old(store).wf(),
        ensures
            final(self).wf(),
            final(store).wf(),
            final(self).functions == old(self).functions,
            final(store).capacity == old(store).capacity,
            scripts(final(self).blocks@) == scripts(old(self).blocks@),
            ({
                let expected = round(
                    models(old(self).blocks@),
                    scripts(old(self).blocks@),
                    old(store).tables@,
                    old(self).functions@,
                    last,
                );
                &&& models(final(self).blocks@) == expected.blocks
                &&& final(store).tables@ == expected.tables
                &&& final(store).log() == old(store).log().record_all(expected.attempted)
                &&& r.0 == expected.executions
                &&& r.1 == expected.last
                &&& r.2 == expected.result
            }),
    {
        let (changes, executions, latest) = self.solve_ready(store, last);
        let txn: Transaction = Transaction::from_changeset(changes);
        match store.intern_transaction(&txn) {
            Ok(registers) => {
                self.process_changes(&registers, store);
                (executions, latest, Ok(()))
            },
            Err(e) => (executions, latest, Err(e)),
        }
    }

    /// Runs the network until no block is ready. Returns the number of
    /// blocks that ran. A transaction that fails ends the run with its
    /// error; a network that has not settled within the bound on rounds
    /// ends it with a cycle. Either error bears the id of the block that
    /// ran last.
    pub fn run_network(&mut self, store: &mut Interner) -> (r: Result<usize, MechError>)
        requires
            old(self).wf(),
            old(store).wf(),
        ensures
            final(self).wf(),
            final(store).wf(),
            final(self).functions == old(self).functions,
            final(store).capacity == old(store).capacity,
            scripts(final(self).blocks@) == scripts(old(self).blocks@),
            ({
                let run = rounds(
                    models(old(self).blocks@),
                    scripts(old(self).blocks@),
                    old(store).tables@,
                    old(self).functions@,
                    MAX_ITER as nat,
                );
                &&& models(final(self).blocks@) == run.blocks
                &&& final(store).tables@ == run.tables
                &&& final(store).log() == old(store).log().record_all(run.attempted)
                &&& r == (match run.status {
                    Status::Quiescent => Ok::<usize, MechError>(run.executions),
                    Status::Failed(e) => Err(MechError { id: run.last, kind: e }),
                    Status::Running => Err(MechError { id: run.last, kind: MechErrorKind::Cycle }),
                })
            }),
    {
        let ghost start = models(self.blocks@);
        let ghost texts = scripts(self.blocks@);
        let ghost tables = store.tables@;
        let ghost log = store.log();
        let mut executions: usize = 0;
        let mut last: u64 = 0;
        let mut i: usize = 0;
        while i < MAX_ITER
            invariant
                i <= MAX_ITER,
                self.wf(),
                store.wf(),
                self.functions == old(self).functions,
                store.capacity == old(store).capacity,
                start == models(old(self).blocks@),
                texts == scripts(old(self).blocks@),
                tables == old(store).tables@,
                log == old(store).log(),
                scripts(self.blocks@) == texts,
                ({
                    let run = rounds(start, texts, tables, self.functions@, i as nat);
                    &&& run.status is Running
                    &&& models(self.blocks@) == run.blocks
                    &&& store.tables@ == run.tables
                    &&& store.log() == log.record_all(run.attempted)
                    &&& executions == run.executions
                    &&& last == run.last
                }),
            decreases MAX_ITER - i,
        {
            proof {
                let before = rounds(start, texts, tables, self.functions@, i as nat);
                let next = round(before.blocks, texts, before.tables, self.functions@, before.last);
                lemma_record_all(log, before.attempted, next.attempted);
            }
            let (ran, latest, outcome) = self.round(store, last);
            let total: usize = match executions.checked_add(ran) {
                Some(sum) => sum,
                None => usize::MAX,
            };
            i += 1;
            match outcome {
                Err(e) => {
                    proof {
                        lemma_rounds_stop(
                            start,
                            texts,
                            tables,
                            self.functions@,
                            i as nat,
                            MAX_ITER as nat,
                        );
                    }
                    return Err(MechError { id: latest, kind: e });
                },
                Ok(()) => {
                    if ran == 0 {
                        proof {
                            lemma_rounds_stop(
                                start,
                                texts,
                                tables,
                                self.functions@,
                                i as nat,
                                MAX_ITER as nat,
                            );
                        }
                        return Ok(total);
                    }
                },
            }
            executions = total;
            last = latest;
        }
        Err(MechError { id: last, kind: MechErrorKind::Cycle })
    }
}

} // verus!
