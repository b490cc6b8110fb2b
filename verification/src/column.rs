//! Columns: the cells of one table column, all of one kind.

use vstd::prelude::*;
use crate::value::{Value, ValueKind};

verus! {

/// The cells of one column, each with the flag that says whether it changed
/// since the flags were last reset.
#[derive(Debug)]
pub struct Column {
    pub kind: ValueKind,
    pub values: Vec<Value>,
    pub changed: Vec<bool>,
}

/// What a column holds, as mathematics sees it.
#[verifier::ext_equal]
pub struct ColumnModel {
    pub kind: ValueKind,
    pub values: Seq<Value>,
    pub changed: Seq<bool>,
}

/// The number of `true` among the first `n` flags.
pub open spec fn count_true(flags: Seq<bool>, n: int) -> int
    decreases n,
{
    if n <= 0 {
        0
    } else {
        count_true(flags, n - 1) + if flags[n - 1] {
            1int
        } else {
            0int
        }
    }
}

/// The kind that a column takes on when `value` is written into it: its own
/// where that admits the value, the value's where the column had no kind
/// yet, and `Any` where the two differ.
pub open spec fn kind_after(kind: ValueKind, value: Value) -> ValueKind {
    if kind.admits(value) {
        kind
    } else if kind is Empty {
        value.kind()
    } else {
        ValueKind::Any
    }
}

impl ColumnModel {
    /// Every cell has a flag, and the column's kind admits every cell.
    pub open spec fn wf(self) -> bool {
        &&& self.values.len() == self.changed.len()
        &&& forall|i: int| 0 <= i < self.values.len() ==> self.kind.admits(#[trigger] self.values[i])
    }

    /// A column without kind of `rows` empty, unchanged cells.
    pub open spec fn blank(rows: nat) -> ColumnModel {
        ColumnModel {
            kind: ValueKind::Empty,
            values: Seq::new(rows, |i: int| Value::Empty),
            changed: Seq::new(rows, |i: int| false),
        }
    }

    /// The column brought to `rows` cells: the first cells stay as they are,
    /// and each new cell holds `fill`, unchanged.
    pub open spec fn extend(self, rows: nat, fill: Value) -> ColumnModel {
        ColumnModel {
            kind: self.kind,
            values: Seq::new(
                rows,
                |i: int|
                    if i < self.values.len() {
                        self.values[i]
                    } else {
                        fill
                    },
            ),
            changed: Seq::new(rows, |i: int| i < self.changed.len() && self.changed[i]),
        }
    }

    /// The column after `value` was written into the cell at `row`, counted
    /// from zero: a cell that already holds the value stays as it is;
    /// another takes the value and is marked as changed, and the kind widens
    /// where it must.
    pub open spec fn write(self, row: int, value: Value) -> ColumnModel {
        if self.values[row] == value {
            self
        } else {
            ColumnModel {
                kind: kind_after(self.kind, value),
                values: self.values.update(row, value),
                changed: self.changed.update(row, true),
            }
        }
    }

    /// The column with another kind: a cell that the new kind does not admit
    /// is emptied and marked as changed; every other cell stays.
    pub open spec fn set_kind(self, kind: ValueKind) -> ColumnModel {
        ColumnModel {
            kind,
            values: Seq::new(
                self.values.len(),
                |i: int|
                    if kind.admits(self.values[i]) {
                        self.values[i]
                    } else {
                        Value::Empty
                    },
            ),
            changed: Seq::new(
                self.values.len(),
                |i: int| self.changed[i] || !kind.admits(self.values[i]),
            ),
        }
    }

    /// The column with the cell at `row` marked as changed.
    pub open spec fn touch(self, row: int) -> ColumnModel {
        ColumnModel { changed: self.changed.update(row, true), ..self }
    }

    /// The column with every flag cleared.
    pub open spec fn reset_changed(self) -> ColumnModel {
        ColumnModel { changed: Seq::new(self.changed.len(), |i: int| false), ..self }
    }

    /// The number of cells that count: in a column of truth values those
    /// that hold `true`, in any other column all of them.
    pub open spec fn logical_len(self) -> int {
        if self.kind is Bool {
            count_true(
                Seq::new(self.values.len(), |i: int| self.values[i] == Value::Bool(true)),
                self.values.len() as int,
            )
        } else {
            self.values.len() as int
        }
    }
}

impl View for Column {
    type V = ColumnModel;

    open spec fn view(&self) -> ColumnModel {
        ColumnModel { kind: self.kind, values: self.values@, changed: self.changed@ }
    }
}

impl Column {
    /// There is a flag for every cell, and the column's kind admits every
    /// cell.
    pub open spec fn wf(&self) -> bool {
        self@.wf()
    }

    /// A column of `rows` cells of the given kind, each the kind's zero and
    /// none changed.
    pub fn new(kind: ValueKind, rows: usize) -> (c: Column)
        ensures
            c.wf(),
            c@ == (ColumnModel { kind, values: Seq::empty(), changed: Seq::empty() }).extend(
                rows as nat,
                kind.spec_zero(),
            ),
    {
        let mut c = Column { kind, values: Vec::new(), changed: Vec::new() };
        c.resize(rows);
        c
    }

    /// A column without kind of `rows` empty, unchanged cells.
    pub fn blank(rows: usize) -> (c: Column)
        ensures
            c.wf(),
            c@ == ColumnModel::blank(rows as nat),
    {
        let mut c = Column { kind: ValueKind::Empty, values: Vec::new(), changed: Vec::new() };
        c.extend(rows, Value::Empty);
        assert(c@ =~= ColumnModel::blank(rows as nat));
        c
    }

    /// The number of cells.
    pub fn len(&self) -> (n: usize)
        ensures
            n == self@.values.len(),
    {
        self.values.len()
    }

    /// The number of cells that count.
    pub fn logical_len(&self) -> (n: usize)
        ensures
            n == self@.logical_len(),
    {
        match self.kind {
            ValueKind::Bool => {
                let ghost flags = Seq::new(
                    self.values@.len(),
                    |i: int| self.values@[i] == Value::Bool(true),
                );
                let mut n: usize = 0;
                let mut i: usize = 0;
                while i < self.values.len()
                    invariant
                        i <= self.values@.len(),
                        flags == Seq::new(
                            self.values@.len(),
                            |i: int| self.values@[i] == Value::Bool(true),
                        ),
                        n == count_true(flags, i as int),
                        n <= i,
                    decreases self.values@.len() - i,
                {
                    if self.values[i] == Value::Bool(true) {
                        n += 1;
                    }
                    i += 1;
                }
                n
            },
            _ => self.values.len(),
        }
    }

    /// The kind of the column's values.
    pub fn kind(&self) -> (k: ValueKind)
        ensures
            k == self@.kind,
    {
        self.kind
    }

    /// Brings the column to `rows` cells: the first cells stay as they are,
    /// and each new cell holds the kind's zero, unchanged.
    pub fn resize(&mut self, rows: usize)
        requires
            old(self).wf(),
        ensures
            final(self).wf(),
            final(self)@ == old(self)@.extend(rows as nat, old(self).kind.spec_zero()),
    {
        let zero: Value = self.kind.zero();
        self.extend(rows, zero);
    }

    /// Brings the column to `rows` cells: the first cells stay as they are,
    /// and each new cell holds `fill`, unchanged.
    pub fn extend(&mut self, rows: usize, fill: Value)
        requires
            old(self).wf(),
            old(self).kind.admits(fill),
        ensures
            final(self).wf(),
            final(self)@ == old(self)@.extend(rows as nat, fill),
    {
        self.values.truncate(rows);
        self.changed.truncate(rows);
        while self.values.len() < rows
            invariant
                self.kind == old(self).kind,
                self.kind.admits(fill),
                self.values@.len() == self.changed@.len(),
                old(self).values@.len() == old(self).changed@.len(),
                self.values@.len() <= rows,
                old(self).values@.len() <= self.values@.len() || self.values@.len() >= rows,
                forall|i: int|
                    0 <= i < self.values@.len() ==> self.kind.admits(#[trigger] self.values@[i]),
                forall|i: int|
                    0 <= i < self.values@.len() ==> #[trigger] self.values@[i] == (if i < old(
                        self,
                    ).values@.len() {
                        old(self).values@[i]
                    } else {
                        fill
                    }),
                forall|i: int|
                    0 <= i < self.values@.len() ==> #[trigger] self.changed@[i] == (i < old(
                        self,
                    ).changed@.len() && old(self).changed@[i]),
            decreases rows - self.values@.len(),
        {
            self.values.push(fill);
            self.changed.push(false);
        }
        assert(self@ =~= old(self)@.extend(rows as nat, fill));
    }

    /// Writes `value` into the cell at `row`, counted from zero. A cell that
    /// already holds the value stays as it is; otherwise it takes the value
    /// and is marked as changed. The column's kind widens where it must.
    pub fn write(&mut self, row: usize, value: Value)
        requires
            old(self).wf(),
            row < old(self).values@.len(),
        ensures
            final(self).wf(),
            final(self)@ == old(self)@.write(row as int, value),
    {
        if self.values[row] != value {
            if !self.kind.accepts(&value) {
                self.kind = match self.kind {
                    ValueKind::Empty => value.kind(),
                    _ => ValueKind::Any,
                };
            }
            self.values.set(row, value);
            self.changed.set(row, true);
        }
    }

    /// Gives the column another kind. A cell that the new kind does not
    /// admit is emptied and marked as changed; every other cell stays.
    pub fn set_kind(&mut self, kind: ValueKind)
        requires
            old(self).wf(),
        ensures
            final(self).wf(),
            final(self)@ == old(self)@.set_kind(kind),
    {
        let n: usize = self.values.len();
        self.kind = kind;
        let mut i: usize = 0;
        while i < n
            invariant
                i <= n,
                n == self.values@.len(),
                n == self.changed@.len(),
                n == old(self).values@.len(),
                n == old(self).changed@.len(),
                self.kind == kind,
                forall|j: int|
                    0 <= j < i ==> #[trigger] self.values@[j] == (if kind.admits(
                        old(self).values@[j],
                    ) {
                        old(self).values@[j]
                    } else {
                        Value::Empty
                    }),
                forall|j: int|
                    0 <= j < i ==> #[trigger] self.changed@[j] == (old(self).changed@[j]
                        || !kind.admits(old(self).values@[j])),
                forall|j: int| i <= j < n ==> #[trigger] self.values@[j] == old(self).values@[j],
                forall|j: int| i <= j < n ==> #[trigger] self.changed@[j] == old(self).changed@[j],
            decreases n - i,
        {
            if !kind.accepts(&self.values[i]) {
                self.values.set(i, Value::Empty);
                self.changed.set(i, true);
            }
            i += 1;
        }
        assert(self@ =~= old(self)@.set_kind(kind));
    }

    /// Marks the cell at `row`, counted from zero, as changed.
    pub fn touch(&mut self, row: usize)
        requires
            old(self).wf(),
            row < old(self).values@.len(),
        ensures
            final(self).wf(),
            final(self)@ == old(self)@.touch(row as int),
    {
        self.changed.set(row, true);
    }

    /// Clears every flag.
    pub fn reset_changed(&mut self)
        requires
            old(self).wf(),
        ensures
            final(self).wf(),
            final(self)@ == old(self)@.reset_changed(),
    {
        let n: usize = self.changed.len();
        let mut i: usize = 0;
        while i < n
            invariant
                i <= n,
                n == self.changed@.len(),
                self.kind == old(self).kind,
                self.values@ == old(self).values@,
                forall|j: int| 0 <= j < i ==> !(#[trigger] self.changed@[j]),
            decreases n - i,
        {
            self.changed.set(i, false);
            i += 1;
        }
        assert(self@ =~= old(self)@.reset_changed());
    }

    /// A column with the same kind, cells and flags.
    pub fn copy(&self) -> (c: Column)
        requires
            self.wf(),
        ensures
            c.wf(),
            c@ == self@,
    {
        let mut values: Vec<Value> = Vec::new();
        let mut changed: Vec<bool> = Vec::new();
        let mut i: usize = 0;
        while i < self.values.len()
            invariant
                i <= self.values@.len(),
                self.values@.len() == self.changed@.len(),
                values@ == self.values@.take(i as int),
                changed@ == self.changed@.take(i as int),
            decreases self.values@.len() - i,
        {
            values.push(self.values[i]);
            changed.push(self.changed[i]);
            assert(self.values@.take(i + 1) =~= self.values@.take(i as int).push(
                self.values@[i as int],
            ));
            assert(self.changed@.take(i + 1) =~= self.changed@.take(i as int).push(
                self.changed@[i as int],
            ));
            i += 1;
        }
        assert(self.values@.take(i as int) =~= self.values@);
        assert(self.changed@.take(i as int) =~= self.changed@);
        Column { kind: self.kind, values, changed }
    }
}

} // verus!
