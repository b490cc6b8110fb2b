//! The core: a database and a network of blocks, driven from outside by
//! blocks that are registered and transactions that are submitted.

use vstd::prelude::*;
use crate::block::{debug_form, Block, BlockModel, BlockState, MechFunction, Transformation};
use crate::database::{
    apply_transaction, attempts, lemma_record_all, marked, transaction_views, views, ChangeModel,
    Database, Interner, LogModel, Transaction,
};
use crate::error::{MechError, MechErrorKind};
use crate::hash::spec_hash_chars;
use crate::runtime::{models, rounds, scripts, woken_by, Run, Runtime, Status, MAX_ITER};
use crate::table::{TableIndex, TableModel};
use crate::value::Value;

verus! {

/// A database with the blocks that work on it.
#[derive(Debug)]
pub struct Core {
    pub database: Database,
    pub runtime: Runtime,
    /// How many of the transactions in the log are applied.
    pub position: usize,
    /// What happened to the core, in order: for a transaction its place in
    /// the log, and nothing for a block that joined.
    pub events: Vec<Option<usize>>,
}

/// What a core holds, as mathematics sees it: the blocks and the global
/// tables.
pub struct CoreModel {
    pub blocks: Seq<BlockModel>,
    pub tables: Map<u64, TableModel>,
}

/// A block as it is made new.
pub open spec fn new_block() -> BlockModel {
    BlockModel {
        id: 0,
        state: BlockState::New,
        text: Seq::empty(),
        name: Seq::empty(),
        tables: Map::empty(),
        input: Seq::empty(),
        ready: Seq::empty(),
        watching: Seq::empty(),
        output: Seq::empty(),
        output_dependencies: Seq::empty(),
        output_dependencies_ready: Seq::empty(),
        plan: Seq::empty(),
        changes: Seq::empty(),
        errors: Seq::empty(),
        pending: None,
        triggered: 0,
    }
}

/// The block that registering the first `n` groups of a script with a new
/// block gives.
pub open spec fn rebuilt(script: Seq<(String, Vec<Transformation>)>, n: nat) -> BlockModel
    decreases n,
{
    if n == 0 {
        new_block()
    } else {
        rebuilt(script, (n - 1) as nat).registered_all(
            script[n - 1].1@,
            (n - 1) as usize,
            script[n - 1].1@.len(),
        )
    }
}

/// The core after a block has joined: the block gets its id, is primed and
/// has its queued changes applied; the blocks are woken by what changed;
/// then the network runs. A block whose changes fail joins without the
/// network running.
#[verifier::opaque]
pub open spec fn joined(
    core: CoreModel,
    earlier: Seq<Seq<(String, Vec<Transformation>)>>,
    script: Seq<(String, Vec<Transformation>)>,
    block: BlockModel,
    functions: Map<u64, MechFunction>,
) -> CoreModel {
    let id = spec_hash_chars(debug_form(script));
    let joining = (BlockModel { id, ..block }).primed(core.tables);
    let outcome = apply_transaction(core.tables, joining.changes);
    let with_block = core.blocks.push(joining.flushed());
    match outcome.result {
        Err(_) => CoreModel { blocks: with_block, tables: outcome.tables },
        Ok(registers) => {
            let run = rounds(
                woken_by(with_block, registers, outcome.tables, registers.len()),
                earlier.push(script),
                outcome.tables,
                functions,
                MAX_ITER as nat,
            );
            CoreModel { blocks: run.blocks, tables: run.tables }
        },
    }
}

/// The core after a transaction: the changes are applied, the blocks are
/// woken by what changed, and the network runs. A transaction that fails
/// leaves the blocks alone.
#[verifier::opaque]
pub open spec fn processed(
    core: CoreModel,
    scripts: Seq<Seq<(String, Vec<Transformation>)>>,
    functions: Map<u64, MechFunction>,
    changes: Seq<ChangeModel>,
) -> CoreModel {
    let outcome = apply_transaction(core.tables, changes);
    match outcome.result {
        Err(_) => CoreModel { blocks: core.blocks, tables: outcome.tables },
        Ok(registers) => {
            let run = rounds(
                woken_by(core.blocks, registers, outcome.tables, registers.len()),
                scripts,
                outcome.tables,
                functions,
                MAX_ITER as nat,
            );
            CoreModel { blocks: run.blocks, tables: run.tables }
        },
    }
}

/// What a run of the network reports: nothing where it settled, else the
/// error that ended it, or `Cycle` where it did not end, with the id of the
/// block that ran last.
pub open spec fn reported(run: Run) -> Result<(), MechError> {
    match run.status {
        Status::Quiescent => Ok(()),
        Status::Failed(e) => Err(MechError { id: run.last, kind: e }),
        Status::Running => Err(MechError { id: run.last, kind: MechErrorKind::Cycle }),
    }
}

/// What the core reports of a block that joins: the id of the block, or
/// the error of its queued changes, or what the run of the network reports.
pub open spec fn joining_result(
    core: CoreModel,
    earlier: Seq<Seq<(String, Vec<Transformation>)>>,
    script: Seq<(String, Vec<Transformation>)>,
    block: BlockModel,
    functions: Map<u64, MechFunction>,
) -> Result<u64, MechError> {
    let id = spec_hash_chars(debug_form(script));
    let joining = (BlockModel { id, ..block }).primed(core.tables);
    let outcome = apply_transaction(core.tables, joining.changes);
    let with_block = core.blocks.push(joining.flushed());
    match outcome.result {
        Err(e) => Err(MechError { id: 0, kind: e }),
        Ok(registers) => match reported(
            rounds(
                woken_by(with_block, registers, outcome.tables, registers.len()),
                earlier.push(script),
                outcome.tables,
                functions,
                MAX_ITER as nat,
            ),
        ) {
            Ok(_) => Ok(id),
            Err(e) => Err(e),
        },
    }
}

/// What the core reports of a transaction: the error of the first change
/// that fails, or what the run of the network reports.
pub open spec fn processing_result(
    core: CoreModel,
    scripts: Seq<Seq<(String, Vec<Transformation>)>>,
    functions: Map<u64, MechFunction>,
    changes: Seq<ChangeModel>,
) -> Result<(), MechError> {
    let outcome = apply_transaction(core.tables, changes);
    match outcome.result {
        Err(e) => Err(MechError { id: 0, kind: e }),
        Ok(registers) => reported(
            rounds(
                woken_by(core.blocks, registers, outcome.tables, registers.len()),
                scripts,
                outcome.tables,
                functions,
                MAX_ITER as nat,
            ),
        ),
    }
}

/// The changes that are tried when a block joins: those that the block has
/// queued and, where they apply, those of the run of the network.
pub open spec fn joining_attempts(
    core: CoreModel,
    earlier: Seq<Seq<(String, Vec<Transformation>)>>,
    script: Seq<(String, Vec<Transformation>)>,
    block: BlockModel,
    functions: Map<u64, MechFunction>,
) -> Seq<ChangeModel> {
    let id = spec_hash_chars(debug_form(script));
    let joining = (BlockModel { id, ..block }).primed(core.tables);
    let outcome = apply_transaction(core.tables, joining.changes);
    let with_block = core.blocks.push(joining.flushed());
    let own = attempts(core.tables, joining.changes);
    match outcome.result {
        Err(_) => own,
        Ok(registers) => own + rounds(
            woken_by(with_block, registers, outcome.tables, registers.len()),
            earlier.push(script),
            outcome.tables,
            functions,
            MAX_ITER as nat,
        ).attempted,
    }
}

/// The changes that are tried when a transaction is processed: its own
/// and, where they apply, those of the run of the network.
pub open spec fn processing_attempts(
    core: CoreModel,
    scripts: Seq<Seq<(String, Vec<Transformation>)>>,
    functions: Map<u64, MechFunction>,
    changes: Seq<ChangeModel>,
) -> Seq<ChangeModel> {
    let outcome = apply_transaction(core.tables, changes);
    let own = attempts(core.tables, changes);
    match outcome.result {
        Err(_) => own,
        Ok(registers) => own + rounds(
            woken_by(core.blocks, registers, outcome.tables, registers.len()),
            scripts,
            outcome.tables,
            functions,
            MAX_ITER as nat,
        ).attempted,
    }
}

/// A core in the middle of a replay: what it holds, how many blocks have
/// joined, and the changes that were tried on the way.
pub struct Replay {
    pub core: CoreModel,
    pub joined: nat,
    pub attempted: Seq<ChangeModel>,
}

/// The text and the name of each block.
pub open spec fn labels(blocks: Seq<Block>) -> Seq<(Seq<char>, Seq<char>)> {
    Seq::new(blocks.len(), |i: int| (blocks[i].text@, blocks[i].name@))
}

/// The block with the text and the name given.
pub open spec fn labelled(block: BlockModel, label: (Seq<char>, Seq<char>)) -> BlockModel {
    BlockModel { text: label.0, name: label.1, ..block }
}

/// The replay after the next script has joined as a new block, which keeps
/// the text and the name that the block had.
pub open spec fn rejoined(
    replay: Replay,
    scripts: Seq<Seq<(String, Vec<Transformation>)>>,
    names: Seq<(Seq<char>, Seq<char>)>,
    functions: Map<u64, MechFunction>,
) -> Replay {
    if replay.joined < scripts.len() {
        Replay {
            core: joined(
                replay.core,
                scripts.take(replay.joined as int),
                scripts[replay.joined as int],
                labelled(
                    rebuilt(scripts[replay.joined as int], scripts[replay.joined as int].len()),
                    names[replay.joined as int],
                ),
                functions,
            ),
            joined: replay.joined + 1,
            attempted: replay.attempted + joining_attempts(
                replay.core,
                scripts.take(replay.joined as int),
                scripts[replay.joined as int],
                labelled(
                    rebuilt(scripts[replay.joined as int], scripts[replay.joined as int].len()),
                    names[replay.joined as int],
                ),
                functions,
            ),
        }
    } else {
        replay
    }
}

/// The replay of the first `n` events: starting without tables and blocks,
/// each block joins as a new block where it joined, and each of the first
/// `target` transactions of the log is processed where it was processed.
/// Later transactions are passed over.
pub open spec fn replayed_events(
    scripts: Seq<Seq<(String, Vec<Transformation>)>>,
    names: Seq<(Seq<char>, Seq<char>)>,
    functions: Map<u64, MechFunction>,
    log: Seq<Seq<ChangeModel>>,
    events: Seq<Option<usize>>,
    target: nat,
    n: nat,
) -> Replay
    decreases n,
{
    if n == 0 {
        Replay {
            core: CoreModel { blocks: Seq::empty(), tables: Map::empty() },
            joined: 0,
            attempted: Seq::empty(),
        }
    } else {
        let before = replayed_events(scripts, names, functions, log, events, target, (n - 1) as nat);
        match events[n - 1] {
            None => rejoined(before, scripts, names, functions),
            Some(i) => if i < target && i < log.len() {
                Replay {
                    core: processed(
                        before.core,
                        scripts.take(before.joined as int),
                        functions,
                        log[i as int],
                    ),
                    attempted: before.attempted + processing_attempts(
                        before.core,
                        scripts.take(before.joined as int),
                        functions,
                        log[i as int],
                    ),
                    ..before
                }
            } else {
                before
            },
        }
    }
}

/// The replay after `n` more blocks have joined, as far as there are
/// blocks left.
pub open spec fn rejoined_rest(
    replay: Replay,
    scripts: Seq<Seq<(String, Vec<Transformation>)>>,
    names: Seq<(Seq<char>, Seq<char>)>,
    functions: Map<u64, MechFunction>,
    n: nat,
) -> Replay
    decreases n,
{
    if n == 0 {
        replay
    } else {
        rejoined(
            rejoined_rest(replay, scripts, names, functions, (n - 1) as nat),
            scripts,
            names,
            functions,
        )
    }
}

/// The core that replaying the first `target` transactions gives: the
/// events are replayed in their order, and the blocks that have not joined
/// by then join afterwards. Each block joins with the script, the text and
/// the name that it had.
pub open spec fn replayed(
    scripts: Seq<Seq<(String, Vec<Transformation>)>>,
    names: Seq<(Seq<char>, Seq<char>)>,
    functions: Map<u64, MechFunction>,
    log: Seq<Seq<ChangeModel>>,
    events: Seq<Option<usize>>,
    target: nat,
) -> CoreModel {
    let replay = replayed_events(scripts, names, functions, log, events, target, events.len());
    rejoined_rest(replay, scripts, names, functions, (scripts.len() - replay.joined) as nat).core
}

/// The changes that replaying the first `target` transactions tries, in
/// their order.
pub open spec fn replayed_attempts(
    scripts: Seq<Seq<(String, Vec<Transformation>)>>,
    names: Seq<(Seq<char>, Seq<char>)>,
    functions: Map<u64, MechFunction>,
    log: Seq<Seq<ChangeModel>>,
    events: Seq<Option<usize>>,
    target: nat,
) -> Seq<ChangeModel> {
    let replay = replayed_events(scripts, names, functions, log, events, target, events.len());
    rejoined_rest(
        replay,
        scripts,
        names,
        functions,
        (scripts.len() - replay.joined) as nat,
    ).attempted
}

/// A log of the given capacity into which no change has come.
pub open spec fn new_log(capacity: usize) -> LogModel {
    LogModel { changes: Seq::empty(), capacity, pointer: 0, count: 0, rollover: 0 }
}

impl View for Core {
    type V = CoreModel;

    open spec fn view(&self) -> CoreModel {
        CoreModel { blocks: models(self.runtime.blocks@), tables: self.database.store.tables@ }
    }
}

/// The first `n` events without the transactions from `position` on.
pub open spec fn kept_events(events: Seq<Option<usize>>, position: usize, n: nat) -> Seq<Option<usize>>
    decreases n,
{
    if n == 0 {
        Seq::empty()
    } else {
        let earlier = kept_events(events, position, (n - 1) as nat);
        match events[n - 1] {
            Some(i) => if i >= position {
                earlier
            } else {
                earlier.push(events[n - 1])
            },
            None => earlier.push(None),
        }
    }
}

impl Core {
    /// Forgets the events of the transactions that were stepped back over.
    fn forget_undone(&mut self)
        ensures
            final(self).events@ == kept_events(
                old(self).events@,
                old(self).position,
                old(self).events@.len(),
            ),
            final(self).database == old(self).database,
            final(self).runtime == old(self).runtime,
            final(self).position == old(self).position,
    {
        let mut kept: Vec<Option<usize>> = Vec::new();
        let mut i: usize = 0;
        while i < self.events.len()
            invariant
                i <= self.events@.len(),
                self.events == old(self).events,
                self.database == old(self).database,
                self.runtime == old(self).runtime,
                self.position == old(self).position,
                kept@ == kept_events(self.events@, self.position, i as nat),
            decreases self.events@.len() - i,
        {
            match self.events[i] {
                Some(t) => {
                    if t < self.position {
                        kept.push(Some(t));
                    }
                },
                None => {
                    kept.push(None);
                },
            }
            i += 1;
        }
        self.events = kept;
    }

    /// The database and the runtime are well formed, and the position lies
    /// within the log of transactions.
    pub open spec fn wf(&self) -> bool {
        &&& self.database.wf()
        &&& self.runtime.wf()
        &&& self.position <= self.database.transactions@.len()
    }

    /// A core without tables, blocks or operators, whose log of changes
    /// keeps `change_capacity` changes.
    pub fn new(change_capacity: usize, table_capacity: usize) -> (core: Core)
        ensures
            core.wf(),
            core@.blocks.len() == 0,
            core@.tables == Map::<u64, TableModel>::empty(),
            core.runtime.functions@ == Map::<u64, MechFunction>::empty(),
            core.database.store.capacity == change_capacity,
            core.database.store.log() == new_log(change_capacity),
            core.database.watched@.len() == 0,
            core.database.transactions@.len() == 0,
            core.database.epoch == 0,
            core.database.processed == 0,
            core.position == 0,
            core.events@.len() == 0,
    {
        Core {
            database: Database::new(change_capacity, table_capacity),
            runtime: Runtime::new(),
            position: 0,
            events: Vec::new(),
        }
    }

    /// Makes the operators of the standard library known.
    pub fn load_standard_library(&mut self)
        requires
            old(self).wf(),
        ensures
            final(self).wf(),
            final(self)@ == old(self)@,
            final(self).database == old(self).database,
            final(self).position == old(self).position,
            final(self).events == old(self).events,
            scripts(final(self).runtime.blocks@) == scripts(old(self).runtime.blocks@),
            final(self).runtime.functions@ == crate::block::standard_library(),
    {
        self.runtime.load_standard_library();
    }

    /// Takes a block in and runs the network. Returns the id of the block,
    /// or the error that ended the run.
    pub fn register_block(&mut self, block: Block) -> (r: Result<u64, MechError>)
        requires
            old(self).wf(),
            block.wf(),
        ensures
            final(self).wf(),
            final(self).runtime.functions == old(self).runtime.functions,
            final(self).position == old(self).position,
            final(self).database.transactions == old(self).database.transactions,
            final(self).events@ == old(self).events@.push(None),
            scripts(final(self).runtime.blocks@) == scripts(old(self).runtime.blocks@).push(
                block.transformations@,
            ),
            final(self)@ == joined(
                old(self)@,
                scripts(old(self).runtime.blocks@),
                block.transformations@,
                block@,
                old(self).runtime.functions@,
            ),
            r == joining_result(
                old(self)@,
                scripts(old(self).runtime.blocks@),
                block.transformations@,
                block@,
                old(self).runtime.functions@,
            ),
            final(self).database.store.log() == old(self).database.store.log().record_all(
                joining_attempts(
                    old(self)@,
                    scripts(old(self).runtime.blocks@),
                    block.transformations@,
                    block@,
                    old(self).runtime.functions@,
                ),
            ),
            final(self).database.epoch == old(self).database.epoch,
            final(self).database.processed == old(self).database.processed,
            final(self).database.watched == old(self).database.watched,
    {
        reveal(joined);
        proof {
            let id = spec_hash_chars(debug_form(block.transformations@));
            let joining = (BlockModel { id, ..block@ }).primed(old(self)@.tables);
            let outcome = apply_transaction(old(self)@.tables, joining.changes);
            if outcome.result is Ok {
                let registers = outcome.result->Ok_0;
                lemma_record_all(
                    old(self).database.store.log(),
                    attempts(old(self)@.tables, joining.changes),
                    rounds(
                        woken_by(
                            old(self)@.blocks.push(joining.flushed()),
                            registers,
                            outcome.tables,
                            registers.len(),
                        ),
                        scripts(old(self).runtime.blocks@).push(block.transformations@),
                        outcome.tables,
                        old(self).runtime.functions@,
                        MAX_ITER as nat,
                    ).attempted,
                );
            }
        }
        self.events.push(None);
        match self.runtime.register_block(block, &mut self.database.store) {
            Err(e) => Err(MechError { id: 0, kind: e }),
            Ok(id) => match self.runtime.run_network(&mut self.database.store) {
                Ok(_) => Ok(id),
                Err(e) => Err(e),
            },
        }
    }

    /// Applies a transaction and runs the network. The transaction is kept
    /// in the log; transactions that were stepped back over are forgotten.
    pub fn process_transaction(&mut self, txn: &Transaction) -> (r: Result<(), MechError>)
        requires
            old(self).wf(),
        ensures
            final(self).wf(),
            final(self).runtime.functions == old(self).runtime.functions,
            scripts(final(self).runtime.blocks@) == scripts(old(self).runtime.blocks@),
            final(self)@ == processed(
                old(self)@,
                scripts(old(self).runtime.blocks@),
                old(self).runtime.functions@,
                views(txn.changes@),
            ),
            transaction_views(final(self).database.transactions@) == transaction_views(
                old(self).database.transactions@,
            ).take(old(self).position as int).push(views(txn.changes@)),
            final(self).position == old(self).position + 1,
            final(self).events@ == kept_events(
                old(self).events@,
                old(self).position,
                old(self).events@.len(),
            ).push(Some(old(self).position)),
            r == processing_result(
                old(self)@,
                scripts(old(self).runtime.blocks@),
                old(self).runtime.functions@,
                views(txn.changes@),
            ),
            final(self).database.store.log() == old(self).database.store.log().record_all(
                processing_attempts(
                    old(self)@,
                    scripts(old(self).runtime.blocks@),
                    old(self).runtime.functions@,
                    views(txn.changes@),
                ),
            ),
            final(self).database.epoch == old(self).database.store.log().record_all(
                attempts(old(self)@.tables, views(txn.changes@)),
            ).rollover as u64,
            final(self).database.processed == (if old(self).database.processed < usize::MAX {
                (old(self).database.processed + 1) as usize
            } else {
                old(self).database.processed
            }),
            final(self).database.watched@ == (match apply_transaction(
                old(self)@.tables,
                views(txn.changes@),
            ).result {
                Ok(registers) => marked(old(self).database.watched@, registers),
                Err(_) => old(self).database.watched@,
            }),
    {
        reveal(processed);
        proof {
            let outcome = apply_transaction(old(self)@.tables, views(txn.changes@));
            if outcome.result is Ok {
                let registers = outcome.result->Ok_0;
                lemma_record_all(
                    old(self).database.store.log(),
                    attempts(old(self)@.tables, views(txn.changes@)),
                    rounds(
                        woken_by(old(self)@.blocks, registers, outcome.tables, registers.len()),
                        scripts(old(self).runtime.blocks@),
                        outcome.tables,
                        old(self).runtime.functions@,
                        MAX_ITER as nat,
                    ).attempted,
                );
            }
        }
        let ghost log = transaction_views(self.database.transactions@);
        self.forget_undone();
        self.events.push(Some(self.position));
        self.database.transactions.truncate(self.position);
        assert(transaction_views(self.database.transactions@) =~= log.take(self.position as int));
        let ghost before = self.database.transactions@;
        assert(transaction_views(before).len() == before.len());
        let outcome = self.database.process_transaction(txn);
        assert(transaction_views(self.database.transactions@).len()
            == self.database.transactions@.len());
        self.position = self.database.transactions.len();
        match outcome {
            Err(e) => Err(MechError { id: 0, kind: e }),
            Ok(registers) => {
                self.runtime.process_changes(&registers, &self.database.store);
                match self.runtime.run_network(&mut self.database.store) {
                    Ok(_) => Ok(()),
                    Err(e) => Err(e),
                }
            },
        }
    }

    /// The value of the cell that the selectors name in the global table
    /// with this id.
    pub fn get(&self, table_id: u64, row: &TableIndex, column: &TableIndex) -> (value: Option<Value>)
        requires
            self.wf(),
        ensures
            value == (if self@.tables.dom().contains(table_id) {
                match self@.tables[table_id].get(*row, *column) {
                    Some((v, _)) => Some(v),
                    None => None,
                }
            } else {
                None
            }),
    {
        self.database.get(table_id, row, column)
    }
}


/// Makes a new block and registers the groups of a script with it, one
/// after another.
pub fn rebuild(script: Vec<(String, Vec<Transformation>)>) -> (block: Block)
    ensures
        block.wf(),
        block@ == rebuilt(script@, script@.len()),
        block.transformations@ == script@,
{
    let ghost initial = script@;
    let mut script = script;
    let mut block = Block::new(0);
    assert(block@ =~= new_block());
    assert(block.transformations@ + script@ =~= initial);
    while script.len() > 0
        invariant
            block.wf(),
            block.transformations@ + script@ == initial,
            block@ == rebuilt(initial, block.transformations@.len()),
        decreases script@.len(),
    {
        let ghost done = block.transformations@;
        let ghost rest = script@;
        let group = script.remove(0);
        assert(initial[done.len() as int] == rest[0]);
        block.register_transformations(group);
        assert(block.transformations@ + script@ =~= initial);
    }
    assert(block.transformations@ =~= initial);
    block
}

impl Core {
    /// Processes a transaction without keeping it in the log.
    fn replay_transaction(&mut self, index: usize)
        requires
            old(self).wf(),
            index < old(self).database.transactions@.len(),
        ensures
            final(self).database.wf(),
            final(self).runtime.wf(),
            final(self).runtime.functions == old(self).runtime.functions,
            final(self).database.transactions == old(self).database.transactions,
            final(self).position == old(self).position,
            final(self).events == old(self).events,
            final(self).database.store.capacity == old(self).database.store.capacity,
            scripts(final(self).runtime.blocks@) == scripts(old(self).runtime.blocks@),
            final(self)@ == processed(
                old(self)@,
                scripts(old(self).runtime.blocks@),
                old(self).runtime.functions@,
                transaction_views(old(self).database.transactions@)[index as int],
            ),
            final(self).database.store.log() == old(self).database.store.log().record_all(
                processing_attempts(
                    old(self)@,
                    scripts(old(self).runtime.blocks@),
                    old(self).runtime.functions@,
                    transaction_views(old(self).database.transactions@)[index as int],
                ),
            ),
            final(self).database.epoch == old(self).database.epoch,
            final(self).database.processed == old(self).database.processed,
            final(self).database.watched == old(self).database.watched,
    {
        reveal(processed);
        proof {
            let changes = transaction_views(old(self).database.transactions@)[index as int];
            let outcome = apply_transaction(old(self)@.tables, changes);
            if outcome.result is Ok {
                let registers = outcome.result->Ok_0;
                lemma_record_all(
                    old(self).database.store.log(),
                    attempts(old(self)@.tables, changes),
                    rounds(
                        woken_by(old(self)@.blocks, registers, outcome.tables, registers.len()),
                        scripts(old(self).runtime.blocks@),
                        outcome.tables,
                        old(self).runtime.functions@,
                        MAX_ITER as nat,
                    ).attempted,
                );
            }
        }
        match self.database.store.intern_transaction(&self.database.transactions[index]) {
            Err(_) => {},
            Ok(registers) => {
                self.runtime.process_changes(&registers, &self.database.store);
                let _ = self.runtime.run_network(&mut self.database.store);
            },
        }
    }

    /// Applies the next transaction of the log that was stepped back over,
    /// if there is one. Says whether there was one.
    pub fn step(&mut self) -> (stepped: bool)
        requires
            old(self).wf(),
        ensures
            final(self).wf(),
            final(self).runtime.functions == old(self).runtime.functions,
            final(self).database.transactions == old(self).database.transactions,
            final(self).events == old(self).events,
            scripts(final(self).runtime.blocks@) == scripts(old(self).runtime.blocks@),
            stepped == (old(self).position < old(self).database.transactions@.len()),
            final(self).position == (if stepped {
                old(self).position + 1
            } else {
                old(self).position as int
            }),
            final(self)@ == (if stepped {
                processed(
                    old(self)@,
                    scripts(old(self).runtime.blocks@),
                    old(self).runtime.functions@,
                    transaction_views(old(self).database.transactions@)[old(self).position as int],
                )
            } else {
                old(self)@
            }),
            final(self).database.store.log() == (if stepped {
                old(self).database.store.log().record_all(
                    processing_attempts(
                        old(self)@,
                        scripts(old(self).runtime.blocks@),
                        old(self).runtime.functions@,
                        transaction_views(old(self).database.transactions@)[old(
                            self,
                        ).position as int],
                    ),
                )
            } else {
                old(self).database.store.log()
            }),
            final(self).database.epoch == old(self).database.epoch,
            final(self).database.processed == old(self).database.processed,
            final(self).database.watched == old(self).database.watched,
    {
        if self.position < self.database.transactions.len() {
            self.replay_transaction(self.position);
            self.position += 1;
            true
        } else {
            false
        }
    }

    /// Makes the block new again, with the script, the text and the name
    /// that it has, and takes it in.
    fn rejoin(&mut self, block: Block)
        requires
            old(self).database.wf(),
            old(self).runtime.wf(),
        ensures
            final(self).database.wf(),
            final(self).runtime.wf(),
            final(self).runtime.functions == old(self).runtime.functions,
            final(self).database.transactions == old(self).database.transactions,
            final(self).position == old(self).position,
            final(self).events == old(self).events,
            final(self).database.store.capacity == old(self).database.store.capacity,
            scripts(final(self).runtime.blocks@) == scripts(old(self).runtime.blocks@).push(
                block.transformations@,
            ),
            final(self)@ == joined(
                old(self)@,
                scripts(old(self).runtime.blocks@),
                block.transformations@,
                labelled(
                    rebuilt(block.transformations@, block.transformations@.len()),
                    (block.text@, block.name@),
                ),
                old(self).runtime.functions@,
            ),
            final(self).database.store.log() == old(self).database.store.log().record_all(
                joining_attempts(
                    old(self)@,
                    scripts(old(self).runtime.blocks@),
                    block.transformations@,
                    labelled(
                        rebuilt(block.transformations@, block.transformations@.len()),
                        (block.text@, block.name@),
                    ),
                    old(self).runtime.functions@,
                ),
            ),
            final(self).database.epoch == old(self).database.epoch,
            final(self).database.processed == old(self).database.processed,
            final(self).database.watched == old(self).database.watched,
    {
        reveal(joined);
        proof {
            let script = block.transformations@;
            let model = labelled(rebuilt(script, script.len()), (block.text@, block.name@));
            let id = spec_hash_chars(debug_form(script));
            let joining = (BlockModel { id, ..model }).primed(old(self)@.tables);
            let outcome = apply_transaction(old(self)@.tables, joining.changes);
            if outcome.result is Ok {
                let registers = outcome.result->Ok_0;
                lemma_record_all(
                    old(self).database.store.log(),
                    attempts(old(self)@.tables, joining.changes),
                    rounds(
                        woken_by(
                            old(self)@.blocks.push(joining.flushed()),
                            registers,
                            outcome.tables,
                            registers.len(),
                        ),
                        scripts(old(self).runtime.blocks@).push(script),
                        outcome.tables,
                        old(self).runtime.functions@,
                        MAX_ITER as nat,
                    ).attempted,
                );
            }
        }
        let mut block = block;
        let mut script: Vec<(String, Vec<Transformation>)> = Vec::new();
        std::mem::swap(&mut script, &mut block.transformations);
        let mut fresh = rebuild(script);
        let ghost bare = fresh@;
        let ghost label = (block.text@, block.name@);
        std::mem::swap(&mut fresh.text, &mut block.text);
        std::mem::swap(&mut fresh.name, &mut block.name);
        assert(fresh@ =~= labelled(bare, label));
        match self.runtime.register_block(fresh, &mut self.database.store) {
            Err(_) => {},
            Ok(_) => {
                let _ = self.runtime.run_network(&mut self.database.store);
            },
        }
    }

    /// Takes the first of the blocks that wait to join again, if there is
    /// one, and makes it join as a new block.
    fn rejoin_next(
        &mut self,
        blocks: &mut Vec<Block>,
        Ghost(initial): Ghost<Seq<Seq<(String, Vec<Transformation>)>>>,
        Ghost(names): Ghost<Seq<(Seq<char>, Seq<char>)>>,
        Ghost(k): Ghost<nat>,
        Ghost(tried): Ghost<Seq<ChangeModel>>,
    )
        requires
            old(self).database.wf(),
            old(self).runtime.wf(),
            old(self).database.store.log() == new_log(old(self).database.store.capacity).record_all(
                tried,
            ),
            k <= initial.len(),
            names.len() == initial.len(),
            old(blocks)@.len() == initial.len() - k,
            scripts(old(self).runtime.blocks@) == initial.take(k as int),
            scripts(old(blocks)@) == initial.skip(k as int),
            labels(old(blocks)@) == names.skip(k as int),
        ensures
            final(self).database.wf(),
            final(self).runtime.wf(),
            final(self).runtime.functions == old(self).runtime.functions,
            final(self).database.transactions == old(self).database.transactions,
            final(self).position == old(self).position,
            final(self).events == old(self).events,
            final(self).database.store.capacity == old(self).database.store.capacity,
            final(self).database.epoch == old(self).database.epoch,
            final(self).database.processed == old(self).database.processed,
            final(self).database.watched == old(self).database.watched,
            ({
                let after = rejoined(
                    Replay { core: old(self)@, joined: k, attempted: tried },
                    initial,
                    names,
                    old(self).runtime.functions@,
                );
                &&& final(self)@ == after.core
                &&& final(self).database.store.log() == new_log(
                    old(self).database.store.capacity,
                ).record_all(after.attempted)
                &&& final(blocks)@.len() == initial.len() - after.joined
                &&& scripts(final(self).runtime.blocks@) == initial.take(after.joined as int)
                &&& scripts(final(blocks)@) == initial.skip(after.joined as int)
                &&& labels(final(blocks)@) == names.skip(after.joined as int)
            }),
    {
        if blocks.len() > 0 {
            let ghost rest = blocks@;
            let block = blocks.remove(0);
            proof {
                assert(scripts(rest)[0] == initial.skip(k as int)[0]);
                assert(block.transformations@ == initial[k as int]);
                assert forall|j: int| 0 <= j < blocks@.len() implies #[trigger] scripts(blocks@)[j]
                    == initial.skip(k as int + 1)[j] by {
                    assert(blocks@[j] == rest[j + 1]);
                    assert(scripts(rest)[j + 1] == initial.skip(k as int)[j + 1]);
                }
                assert(scripts(blocks@) =~= initial.skip(k as int + 1));
                assert(labels(rest)[0] == names.skip(k as int)[0]);
                assert((block.text@, block.name@) == names[k as int]);
                assert forall|j: int| 0 <= j < blocks@.len() implies #[trigger] labels(blocks@)[j]
                    == names.skip(k as int + 1)[j] by {
                    assert(blocks@[j] == rest[j + 1]);
                    assert(labels(rest)[j + 1] == names.skip(k as int)[j + 1]);
                }
                assert(labels(blocks@) =~= names.skip(k as int + 1));
            }
            proof {
                lemma_record_all(
                    new_log(self.database.store.capacity),
                    tried,
                    joining_attempts(
                        self@,
                        scripts(self.runtime.blocks@),
                        block.transformations@,
                        labelled(
                            rebuilt(block.transformations@, block.transformations@.len()),
                            (block.text@, block.name@),
                        ),
                        self.runtime.functions@,
                    ),
                );
            }
            self.rejoin(block);
            proof {
                assert(scripts(self.runtime.blocks@) =~= initial.take(k as int + 1));
            }
        }
    }

    /// Steps back over the last `n` transactions that are applied, or over
    /// all of them if they are fewer: the core becomes what replaying the
    /// transactions before them gives. The log keeps every transaction, so
    /// that [`Core::step`] can apply them again.
    pub fn step_back(&mut self, n: usize)
        requires
            old(self).wf(),
        ensures
            final(self).wf(),
            final(self).runtime.functions == old(self).runtime.functions,
            final(self).database.transactions == old(self).database.transactions,
            final(self).events == old(self).events,
            scripts(final(self).runtime.blocks@) == scripts(old(self).runtime.blocks@),
            final(self).position == (if n >= old(self).position {
                0
            } else {
                old(self).position - n
            }),
            final(self)@ == replayed(
                scripts(old(self).runtime.blocks@),
                labels(old(self).runtime.blocks@),
                old(self).runtime.functions@,
                transaction_views(old(self).database.transactions@),
                old(self).events@,
                final(self).position as nat,
            ),
            final(self).database.store.log() == new_log(old(self).database.store.capacity).record_all(
                replayed_attempts(
                    scripts(old(self).runtime.blocks@),
                    labels(old(self).runtime.blocks@),
                    old(self).runtime.functions@,
                    transaction_views(old(self).database.transactions@),
                    old(self).events@,
                    final(self).position as nat,
                ),
            ),
            final(self).database.epoch == old(self).database.epoch,
            final(self).database.processed == old(self).database.processed,
            final(self).database.watched == old(self).database.watched,
    {
        let target: usize = if n >= self.position {
            0
        } else {
            self.position - n
        };
        let ghost initial = scripts(self.runtime.blocks@);
        let ghost names = labels(self.runtime.blocks@);
        let ghost functions = self.runtime.functions@;
        let ghost log = transaction_views(self.database.transactions@);
        let mut blocks: Vec<Block> = Vec::new();
        std::mem::swap(&mut blocks, &mut self.runtime.blocks);
        let capacity: usize = self.database.store.capacity;
        self.database.store = Interner::new(capacity, 0);
        let ghost mut tried: Seq<ChangeModel> = Seq::empty();
        assert(self.database.store.log() =~= new_log(capacity));
        assert(scripts(self.runtime.blocks@) =~= initial.take(0));
        assert(models(self.runtime.blocks@) =~= Seq::<BlockModel>::empty());
        assert(scripts(blocks@) =~= initial.skip(0));
        assert(labels(blocks@) =~= names.skip(0));
        let ghost mut k: nat = 0;
        let mut e: usize = 0;
        while e < self.events.len()
            invariant
                e <= self.events@.len(),
                k <= initial.len(),
                blocks@.len() == initial.len() - k,
                old(self).wf(),
                self.database.wf(),
                self.runtime.wf(),
                self.runtime.functions == old(self).runtime.functions,
                functions == old(self).runtime.functions@,
                self.database.transactions == old(self).database.transactions,
                log == transaction_views(old(self).database.transactions@),
                self.position == old(self).position,
                self.events == old(self).events,
                scripts(self.runtime.blocks@) == initial.take(k as int),
                scripts(blocks@) == initial.skip(k as int),
                names.len() == initial.len(),
                labels(blocks@) == names.skip(k as int),
                capacity == old(self).database.store.capacity,
                self.database.store.capacity == capacity,
                self.database.epoch == old(self).database.epoch,
                self.database.processed == old(self).database.processed,
                self.database.watched == old(self).database.watched,
                self.database.store.log() == new_log(capacity).record_all(tried),
                replayed_events(initial, names, functions, log, self.events@, target as nat, e as nat)
                    == (Replay { core: self@, joined: k, attempted: tried }),
            decreases self.events@.len() - e,
        {
            match self.events[e] {
                None => {
                    let ghost before = self@;
                    self.rejoin_next(&mut blocks, Ghost(initial), Ghost(names), Ghost(k), Ghost(tried));
                    proof {
                        let after = rejoined(
                            Replay { core: before, joined: k, attempted: tried },
                            initial,
                            names,
                            functions,
                        );
                        k = after.joined;
                        tried = after.attempted;
                    }
                },
                Some(i) => {
                    if i < target && i < self.database.transactions.len() {
                        assert(transaction_views(self.database.transactions@).len()
                            == self.database.transactions@.len());
                        proof {
                            lemma_record_all(
                                new_log(capacity),
                                tried,
                                processing_attempts(
                                    self@,
                                    scripts(self.runtime.blocks@),
                                    functions,
                                    log[i as int],
                                ),
                            );
                            tried = tried + processing_attempts(
                                self@,
                                scripts(self.runtime.blocks@),
                                functions,
                                log[i as int],
                            );
                        }
                        self.replay_transaction(i);
                    }
                },
            }
            e += 1;
        }
        let ghost replay = replayed_events(
            initial,
            names,
            functions,
            log,
            self.events@,
            target as nat,
            self.events@.len(),
        );
        let ghost mut m: nat = 0;
        while blocks.len() > 0
            invariant
                k <= initial.len(),
                blocks@.len() == initial.len() - k,
                k == replay.joined + m,
                old(self).wf(),
                self.database.wf(),
                self.runtime.wf(),
                self.runtime.functions == old(self).runtime.functions,
                functions == old(self).runtime.functions@,
                self.database.transactions == old(self).database.transactions,
                self.position == old(self).position,
                self.events == old(self).events,
                scripts(self.runtime.blocks@) == initial.take(k as int),
                scripts(blocks@) == initial.skip(k as int),
                names.len() == initial.len(),
                labels(blocks@) == names.skip(k as int),
                capacity == old(self).database.store.capacity,
                self.database.store.capacity == capacity,
                self.database.epoch == old(self).database.epoch,
                self.database.processed == old(self).database.processed,
                self.database.watched == old(self).database.watched,
                self.database.store.log() == new_log(capacity).record_all(tried),
                rejoined_rest(replay, initial, names, functions, m) == (Replay {
                    core: self@,
                    joined: k,
                    attempted: tried,
                }),
            decreases blocks@.len(),
        {
            let ghost before = self@;
            self.rejoin_next(&mut blocks, Ghost(initial), Ghost(names), Ghost(k), Ghost(tried));
            proof {
                tried = rejoined(
                    Replay { core: before, joined: k, attempted: tried },
                    initial,
                    names,
                    functions,
                ).attempted;
                k = k + 1;
                m = m + 1;
            }
        }
        assert(initial.take(k as int) =~= initial);
        self.position = target;
    }
}

} // verus!
