//! The index of tables by id, a small positional string hash, and the
//! chunking of strings it goes by.

use vstd::prelude::*;
use vstd::string::StringSliceAdditionalSpecFns;
use crate::collections::IdMap;
use crate::table::{Table, TableModel};

verus! {

/// The weight of the byte at position `i` of a string: the bytes of each
/// group of four count as the digits of a number to the base 256.
pub open spec fn weight(i: int) -> int {
    if i % 4 == 0 {
        1
    } else if i % 4 == 1 {
        256
    } else if i % 4 == 2 {
        65536
    } else {
        16777216
    }
}

/// The weighted sum of the first `n` bytes.
pub open spec fn weighted_sum(bytes: Seq<u8>, n: int) -> int
    decreases n,
{
    if n <= 0 {
        0
    } else {
        weighted_sum(bytes, n - 1) + bytes[n - 1] * weight(n - 1)
    }
}

/// A running hash of the strings written to it.
pub struct Hasher {
    pub value: u64,
}

impl Hasher {
    /// A hasher that has read nothing.
    pub fn new() -> (h: Hasher)
        ensures
            h.value == 0,
    {
        Hasher { value: 0 }
    }

    /// Adds the weighted sum of the string's bytes to the running value,
    /// modulo `2^64`.
    pub fn write(&mut self, string: &str)
        ensures
            final(self).value == (old(self).value + weighted_sum(
                string.spec_bytes(),
                string.spec_bytes().len() as int,
            )) % 0x1_0000_0000_0000_0000,
    {
        let bytes = string.as_bytes();
        let mut i: usize = 0;
        let mut slot: usize = 0;
        while i < bytes.len()
            invariant
                i <= bytes@.len(),
                slot == i % 4,
                bytes@ == string.spec_bytes(),
                self.value == (old(self).value + weighted_sum(bytes@, i as int))
                    % 0x1_0000_0000_0000_0000,
            decreases bytes@.len() - i,
        {
            let multiplier: u64 = if slot == 0 {
                1
            } else if slot == 1 {
                256
            } else if slot == 2 {
                65536
            } else {
                16777216
            };
            let term: u64 = bytes[i] as u64 * multiplier;
            self.value = self.value.wrapping_add(term);
            slot = if slot == 3 {
                0
            } else {
                slot + 1
            };
            i += 1;
        }
    }

    /// The running value; the hasher starts over.
    pub fn finish(&mut self) -> (v: u64)
        ensures
            v == old(self).value,
            final(self).value == 0,
    {
        let v = self.value;
        self.value = 0;
        v
    }

    /// The running value.
    pub fn read(&self) -> (v: u64)
        ensures
            v == self.value,
    {
        self.value
    }

    /// Forgets what was read.
    pub fn reset(&mut self)
        ensures
            final(self).value == 0,
    {
        self.value = 0;
    }
}

/// What is left of a string that is handed out in chunks of `n` bytes.
#[derive(Clone, Debug)]
pub struct CharChunks<'a> {
    pub s: &'a str,
    pub n: usize,
}

impl<'a> CharChunks<'a> {
    /// The chunks of `s`, of `n` characters each.
    pub fn new(s: &'a str, n: usize) -> (chunks: Self)
        ensures
            chunks.s == s,
            chunks.n == n,
    {
        CharChunks { s: s, n: n }
    }

    /// Whether what is left is cut after `n` bytes: it is longer than that,
    /// `n` is not zero, and a character ends there.
    pub open spec fn cuts(&self) -> bool {
        0 < self.n < self.s.spec_bytes().len() as usize && vstd::utf8::is_char_boundary(
            self.s.spec_bytes(),
            self.n as int,
        )
    }

    /// The next chunk: the first `n` bytes of what is left, where the string
    /// is longer than that and can be cut there; otherwise all that is left,
    /// after which nothing is left. `None` once nothing is left.
    pub fn next(&mut self) -> (chunk: Option<&'a str>)
        ensures
            final(self).n == old(self).n,
            match chunk {
                None => old(self).s@.len() == 0 && final(self).s == old(self).s,
                Some(part) => old(self).s@.len() > 0 && (if old(self).cuts() {
                    &&& part.spec_bytes() == old(self).s.spec_bytes().subrange(0, old(self).n as int)
                    &&& final(self).s.spec_bytes() == old(self).s.spec_bytes().subrange(
                        old(self).n as int,
                        old(self).s.spec_bytes().len() as int,
                    )
                } else {
                    &&& part == old(self).s
                    &&& final(self).s@.len() == 0
                }),
            },
    {
        let s: &'a str = self.s;
        if s.is_empty() {
            return None;
        }
        if 0 < self.n && self.n < s.len() && s.is_char_boundary(self.n) {
            let (part, tail) = s.split_at(self.n);
            self.s = tail;
            Some(part)
        } else {
            self.s = "";
            proof {
                reveal_strlit("");
                assert(""@.len() == 0);
            }
            Some(s)
        }
    }
}


/// The tables of one scope, each found by its id.
///
/// The tables stand in a vector, in the order in which they were
/// registered; a hash map remembers the position of each id.
#[derive(Debug)]
pub struct TableRegistry {
    pub tables: Vec<Table>,
    pub slots: IdMap,
}

impl View for TableRegistry {
    type V = Map<u64, TableModel>;

    /// The tables by their ids.
    open spec fn view(&self) -> Map<u64, TableModel> {
        Map::new(
            |id: u64| self.slots@.dom().contains(id),
            |id: u64| self.tables@[self.slots@[id] as int]@,
        )
    }
}

impl TableRegistry {
    /// Every table is well formed and is found under its own id, and every
    /// id that is known leads to the table that bears it.
    pub open spec fn wf(&self) -> bool {
        &&& forall|i: int|
            0 <= i < self.tables@.len() ==> (#[trigger] self.tables@[i]).wf()
                && self.slots@.dom().contains(self.tables@[i].id) && self.slots@[self.tables@[i].id]
                == i
        &&& forall|id: u64| #[trigger]
            self.slots@.dom().contains(id) ==> self.slots@[id] < self.tables@.len()
                && self.tables@[self.slots@[id] as int].id == id
    }

    /// The registry without tables.
    pub fn new() -> (r: TableRegistry)
        ensures
            r.wf(),
            r@ == Map::<u64, TableModel>::empty(),
            r.tables@.len() == 0,
    {
        let r = TableRegistry { tables: Vec::new(), slots: IdMap::new() };
        assert(r@ =~= Map::<u64, TableModel>::empty());
        r
    }

    /// The number of tables.
    pub fn len(&self) -> (n: usize)
        ensures
            n == self.tables@.len(),
    {
        self.tables.len()
    }

    /// Whether a table with this id is registered.
    pub fn contains(&self, id: u64) -> (b: bool)
        requires
            self.wf(),
        ensures
            b == self@.dom().contains(id),
    {
        match self.slots.get(id) {
            Some(_) => true,
            None => false,
        }
    }

    /// The table with this id.
    pub fn get(&self, id: u64) -> (t: Option<&Table>)
        requires
            self.wf(),
        ensures
            match t {
                Some(table) => self@.dom().contains(id) && table@ == self@[id] && table.wf()
                    && table.id == id,
                None => !self@.dom().contains(id),
            },
    {
        match self.slots.get(id) {
            Some(slot) => {
                assert(self.slots@.dom().contains(id));
                Some(&self.tables[slot])
            },
            None => None,
        }
    }

    /// Registers a table under its id. Where the id is taken, the table is
    /// handed back and nothing changes.
    pub fn register(&mut self, table: Table) -> (r: Option<Table>)
        requires
            old(self).wf(),
            table.wf(),
        ensures
            final(self).wf(),
            match r {
                Some(back) => old(self)@.dom().contains(table.id) && back == table && final(self)@
                    == old(self)@ && final(self).tables@ == old(self).tables@,
                None => !old(self)@.dom().contains(table.id) && final(self)@ == old(self)@.insert(
                    table.id,
                    table@,
                ) && final(self).tables@ == old(self).tables@.push(table),
            },
    {
        match self.slots.get(table.id) {
            Some(_) => Some(table),
            None => {
                let id: u64 = table.id;
                let ghost model = table@;
                self.slots.insert(id, self.tables.len());
                self.tables.push(table);
                proof {
                    assert forall|other: u64| #[trigger]
                        self.slots@.dom().contains(other) implies self.slots@[other]
                        < self.tables@.len() && self.tables@[self.slots@[other] as int].id
                        == other by {
                        if other != id {
                            assert(old(self).slots@.dom().contains(other));
                        }
                    }
                    assert(self@ =~= old(self)@.insert(id, model));
                }
                None
            },
        }
    }

    /// Takes the table with this id out of its place, to be worked on and
    /// put back with [`TableRegistry::put`]. A table without cells keeps the
    /// place meanwhile.
    pub fn take(&mut self, id: u64) -> (t: Option<Table>)
        requires
            old(self).wf(),
        ensures
            final(self).wf(),
            final(self).tables@.len() == old(self).tables@.len(),
            match t {
                Some(table) => old(self)@.dom().contains(id) && table@ == old(self)@[id]
                    && table.wf() && table.id == id && final(self)@ == old(self)@.insert(
                    id,
                    TableModel::blank(id, 0, 0),
                ),
                None => !old(self)@.dom().contains(id) && final(self)@ == old(self)@,
            },
    {
        match self.slots.get(id) {
            Some(slot) => {
                assert(self.slots@.dom().contains(id));
                let mut table = Table::placeholder(id);
                std::mem::swap(&mut table, &mut self.tables[slot]);
                proof {
                    assert forall|other: u64| #[trigger]
                        self.slots@.dom().contains(other) implies self.slots@[other]
                        < self.tables@.len() && self.tables@[self.slots@[other] as int].id
                        == other by {
                        assert(old(self).slots@.dom().contains(other));
                    }
                    assert(self@ =~= old(self)@.insert(id, TableModel::blank(id, 0, 0)));
                }
                Some(table)
            },
            None => None,
        }
    }

    /// Puts a table into the place that bears its id.
    pub fn put(&mut self, table: Table)
        requires
            old(self).wf(),
            table.wf(),
            old(self)@.dom().contains(table.id),
        ensures
            final(self).wf(),
            final(self)@ == old(self)@.insert(table.id, table@),
            final(self).tables@.len() == old(self).tables@.len(),
    {
        let id: u64 = table.id;
        let ghost model = table@;
        match self.slots.get(id) {
            Some(slot) => {
                assert(self.slots@.dom().contains(id));
                self.tables.set(slot, table);
                proof {
                    assert forall|other: u64| #[trigger]
                        self.slots@.dom().contains(other) implies self.slots@[other]
                        < self.tables@.len() && self.tables@[self.slots@[other] as int].id
                        == other by {
                        assert(old(self).slots@.dom().contains(other));
                    }
                    assert(self@ =~= old(self)@.insert(id, model));
                }
            },
            None => {},
        }
    }
}

} // verus!
