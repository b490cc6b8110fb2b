//! The store of interned values.
//!
//! A value that is interned gets an address and a reference count. Interning
//! an equal value again hands out the same address and counts one reference
//! more. Dereferencing counts one less; an address without references is
//! free, and the oldest free address is the next to be reused once the store
//! is full. Address zero holds `Empty` for good.

use vstd::prelude::*;
use crate::value::Value;

verus! {

/// The interned values, their reference counts and the free addresses.
#[derive(Debug)]
pub struct Store {
    pub capacity: usize,
    pub data: Vec<Value>,
    pub reference_counts: Vec<usize>,
    /// The addresses that were freed, oldest first. Those before
    /// `free_next` were handed out again.
    pub free: Vec<usize>,
    pub free_next: usize,
}

/// What a store holds, as mathematics sees it.
#[verifier::ext_equal]
pub struct StoreModel {
    pub capacity: nat,
    pub data: Seq<Value>,
    pub counts: Seq<nat>,
    /// The free addresses that wait to be reused, oldest first.
    pub free: Seq<usize>,
}

/// What is asked of a store.
pub enum StoreOp {
    Intern(Value),
    Dereference(usize),
}

/// The reference count that address zero keeps for good.
pub const PINNED: usize = usize::MAX;

/// The first address from `from` on that holds `value`, has a reference and
/// can take one more.
pub open spec fn find_live(data: Seq<Value>, counts: Seq<nat>, value: Value, from: int) -> Option<int>
    decreases data.len() - from,
{
    if from < 1 || from >= data.len() {
        None
    } else if data[from] == value && 0 < counts[from] < usize::MAX {
        Some(from)
    } else {
        find_live(data, counts, value, from + 1)
    }
}

impl StoreModel {
    /// The store holds address zero and no more addresses than its capacity,
    /// there is a count for every address, address zero holds `Empty` and is
    /// pinned, and the free list names addresses other than zero.
    pub open spec fn wf(self) -> bool {
        &&& 1 <= self.data.len() <= self.capacity
        &&& self.counts.len() == self.data.len()
        &&& self.data[0] is Empty
        &&& self.counts[0] == PINNED
        &&& forall|i: int| 0 <= i < self.counts.len() ==> #[trigger] self.counts[i] <= usize::MAX
        &&& forall|i: int|
            0 <= i < self.free.len() ==> 1 <= #[trigger] self.free[i] < self.data.len()
    }

    /// The number of references to the value at `address`; none where the
    /// store has no such address.
    pub open spec fn count(self, address: int) -> nat {
        if 0 <= address < self.counts.len() {
            self.counts[address]
        } else {
            0
        }
    }

    /// The address that interning `value` hands out, if any.
    ///
    /// - `Empty` is at address zero.
    /// - A value that is held, with a reference, is at its address.
    /// - Otherwise the next address that was never used, while there is
    ///   one; after that the oldest free address; after that none.
    pub open spec fn intern_address(self, value: Value) -> Option<int> {
        if value is Empty {
            Some(0)
        } else {
            match find_live(self.data, self.counts, value, 1) {
                Some(a) => Some(a),
                None => if self.data.len() < self.capacity {
                    Some(self.data.len() as int)
                } else if self.free.len() > 0 {
                    Some(self.free[0] as int)
                } else {
                    None
                },
            }
        }
    }

    /// The store after `value` was interned: the address that was handed
    /// out holds the value and has one reference more, unless it is address
    /// zero, which stays as it is.
    pub open spec fn intern(self, value: Value) -> StoreModel {
        if value is Empty {
            self
        } else {
            match find_live(self.data, self.counts, value, 1) {
                Some(a) => StoreModel {
                    counts: self.counts.update(a, self.counts[a] + 1),
                    ..self
                },
                None => if self.data.len() < self.capacity {
                    StoreModel {
                        data: self.data.push(value),
                        counts: self.counts.push(1),
                        ..self
                    }
                } else if self.free.len() > 0 {
                    let a = self.free[0] as int;
                    StoreModel {
                        data: self.data.update(a, value),
                        counts: self.counts.update(a, self.counts[a] + 1),
                        free: self.free.skip(1),
                        ..self
                    }
                } else {
                    self
                },
            }
        }
    }

    /// Whether dereferencing `address` takes a reference away: the address
    /// is not zero, the store has it, and it has a reference.
    pub open spec fn releases(self, address: usize) -> bool {
        1 <= address < self.counts.len() && self.counts[address as int] > 0
    }

    /// The store after `address` was dereferenced: one reference less, and
    /// the address is free once none is left. Address zero and addresses
    /// without a reference stay as they are.
    pub open spec fn dereference(self, address: usize) -> StoreModel {
        if self.releases(address) {
            let left = (self.counts[address as int] - 1) as nat;
            StoreModel {
                counts: self.counts.update(address as int, left),
                free: if left == 0 {
                    self.free.push(address)
                } else {
                    self.free
                },
                ..self
            }
        } else {
            self
        }
    }

    /// The store after one request.
    pub open spec fn step(self, op: StoreOp) -> StoreModel {
        match op {
            StoreOp::Intern(value) => self.intern(value),
            StoreOp::Dereference(address) => self.dereference(address),
        }
    }

    /// The store after the first `n` requests.
    pub open spec fn run(self, ops: Seq<StoreOp>, n: nat) -> StoreModel
        decreases n,
    {
        if n == 0 {
            self
        } else {
            self.run(ops, (n - 1) as nat).step(ops[n - 1])
        }
    }

    /// How many of the first `n` requests interned a value at `address`.
    pub open spec fn interned(self, ops: Seq<StoreOp>, n: nat, address: int) -> nat
        decreases n,
    {
        if n == 0 {
            0
        } else {
            let before = self.run(ops, (n - 1) as nat);
            let earlier = self.interned(ops, (n - 1) as nat, address);
            match ops[n - 1] {
                StoreOp::Intern(value) => if before.intern_address(value) == Some(address) {
                    earlier + 1
                } else {
                    earlier
                },
                _ => earlier,
            }
        }
    }

    /// How many of the first `n` requests took a reference away from
    /// `address`.
    pub open spec fn released(self, ops: Seq<StoreOp>, n: nat, address: int) -> nat
        decreases n,
    {
        if n == 0 {
            0
        } else {
            let before = self.run(ops, (n - 1) as nat);
            let earlier = self.released(ops, (n - 1) as nat, address);
            match ops[n - 1] {
                StoreOp::Dereference(a) => if a == address && before.releases(a) {
                    earlier + 1
                } else {
                    earlier
                },
                _ => earlier,
            }
        }
    }
}

/// What `find_live` finds is a live address that holds the value, and where it
/// finds nothing no live address holds it.
pub proof fn lemma_find_live(data: Seq<Value>, counts: Seq<nat>, value: Value, from: int)
    requires
        1 <= from,
    ensures
        match find_live(data, counts, value, from) {
            Some(a) => from <= a < data.len() && data[a] == value && 0 < counts[a] < usize::MAX,
            None => forall|i: int|
                from <= i < data.len() ==> !(data[i] == value && 0 < counts[i] < usize::MAX),
        },
    decreases data.len() - from,
{
    if from < data.len() && !(data[from] == value && 0 < counts[from] < usize::MAX) {
        lemma_find_live(data, counts, value, from + 1);
    }
}

/// Interning keeps a store well formed, and changes the count of the
/// address it hands out by one and no other count; address zero keeps its
/// count.
pub proof fn lemma_intern(m: StoreModel, value: Value)
    requires
        m.wf(),
        m.free.len() > 0 ==> m.counts[m.free[0] as int] == 0,
    ensures
        m.intern(value).wf(),
        m.intern(value).count(0) == m.count(0),
        forall|a: int|
            a != 0 ==> #[trigger] m.intern(value).count(a) == m.count(a) + (if m.intern_address(
                value,
            ) == Some(a) {
                1nat
            } else {
                0nat
            }),
{
    lemma_find_live(m.data, m.counts, value, 1);
}

/// Dereferencing keeps a store well formed, takes one reference away from
/// an address that has one, and leaves every other count alone; address zero
/// keeps its count.
pub proof fn lemma_dereference(m: StoreModel, address: usize)
    requires
        m.wf(),
    ensures
        m.dereference(address).wf(),
        m.dereference(address).count(0) == m.count(0),
        forall|a: int|
            #[trigger] m.dereference(address).count(a) == m.count(a) - (if a == address
                && m.releases(address) {
                1int
            } else {
                0int
            }),
{
}

impl StoreModel {
    /// Every free address that waits to be reused has no reference, and
    /// waits only once.
    pub open spec fn free_is_free(self) -> bool {
        &&& forall|i: int| 0 <= i < self.free.len() ==> self.counts[#[trigger] self.free[i] as int] == 0
        &&& forall|i: int, j: int|
            0 <= i < j < self.free.len() ==> #[trigger] self.free[i] != #[trigger] self.free[j]
    }
}

proof fn lemma_step_keeps_free(m: StoreModel, op: StoreOp)
    requires
        m.wf(),
        m.free_is_free(),
    ensures
        m.step(op).wf(),
        m.step(op).free_is_free(),
{
    match op {
        StoreOp::Intern(value) => {
            lemma_find_live(m.data, m.counts, value, 1);
            let after = m.intern(value);
            if !(value is Empty) && find_live(m.data, m.counts, value, 1) is None
                && m.data.len() >= m.capacity && m.free.len() > 0 {
                assert forall|i: int| 0 <= i < after.free.len() implies after.counts[
                #[trigger] after.free[i] as int] == 0 by {
                    assert(after.free[i] == m.free[i + 1]);
                }
                assert forall|i: int, j: int| 0 <= i < j < after.free.len() implies #[trigger] after.free[i]
                    != #[trigger] after.free[j] by {
                    assert(after.free[i] == m.free[i + 1]);
                    assert(after.free[j] == m.free[j + 1]);
                }
            }
        },
        StoreOp::Dereference(address) => {
            let after = m.dereference(address);
            if m.releases(address) && m.counts[address as int] == 1 {
                assert forall|i: int, j: int| 0 <= i < j < after.free.len() implies #[trigger] after.free[i]
                    != #[trigger] after.free[j] by {
                    if j == m.free.len() {
                        assert(m.counts[m.free[i] as int] == 0);
                    }
                }
            }
        },
    }
}

/// Address zero keeps its pinned count whatever is asked of the store, and
/// the count of every other address is what it was at the start, plus the
/// number of times a value was interned there, minus the number of times a
/// reference was taken away from it.
pub proof fn lemma_reference_counts_balance(m: StoreModel, ops: Seq<StoreOp>, n: nat, address: int)
    requires
        m.wf(),
        m.free_is_free(),
        n <= ops.len(),
    ensures
        m.run(ops, n).wf(),
        m.run(ops, n).free_is_free(),
        m.run(ops, n).count(0) == PINNED,
        address != 0 ==> m.run(ops, n).count(address) == m.count(address) + m.interned(
            ops,
            n,
            address,
        ) - m.released(ops, n, address),
    decreases n,
{
    if n > 0 {
        lemma_reference_counts_balance(m, ops, (n - 1) as nat, address);
        let before = m.run(ops, (n - 1) as nat);
        lemma_step_keeps_free(before, ops[n - 1]);
        match ops[n - 1] {
            StoreOp::Intern(value) => {
                lemma_intern(before, value);
            },
            StoreOp::Dereference(a) => {
                lemma_dereference(before, a);
            },
        }
    }
}

impl View for Store {
    type V = StoreModel;

    open spec fn view(&self) -> StoreModel {
        StoreModel {
            capacity: self.capacity as nat,
            data: self.data@,
            counts: Seq::new(self.reference_counts@.len(), |i: int| self.reference_counts@[i] as nat),
            free: self.free@.skip(self.free_next as int),
        }
    }
}

impl Store {
    /// The model is well formed, what the free list names is free, and the
    /// next place to take from the list lies within it.
    pub open spec fn wf(&self) -> bool {
        &&& self@.wf()
        &&& self@.free_is_free()
        &&& self.free_next <= self.free@.len()
    }

    /// A store that holds nothing but `Empty` at address zero, and has room
    /// for `capacity` values, that one included.
    pub fn new(capacity: usize) -> (store: Store)
        requires
            capacity >= 1,
        ensures
            store.wf(),
            store@ == (StoreModel {
                capacity: capacity as nat,
                data: seq![Value::Empty],
                counts: seq![PINNED as nat],
                free: Seq::empty(),
            }),
    {
        let mut data: Vec<Value> = Vec::new();
        data.push(Value::Empty);
        let mut reference_counts: Vec<usize> = Vec::new();
        reference_counts.push(PINNED);
        let store = Store { capacity, data, reference_counts, free: Vec::new(), free_next: 0 };
        assert(store@ =~= (StoreModel {
            capacity: capacity as nat,
            data: seq![Value::Empty],
            counts: seq![PINNED as nat],
            free: Seq::empty(),
        }));
        store
    }

    /// The first address that holds `value`, has a reference and can take
    /// one more.
    fn find(&self, value: Value) -> (r: Option<usize>)
        requires
            self.wf(),
        ensures
            match r {
                Some(a) => find_live(self@.data, self@.counts, value, 1) == Some(a as int),
                None => find_live(self@.data, self@.counts, value, 1) is None,
            },
    {
        let mut i: usize = 1;
        while i < self.data.len()
            invariant
                1 <= i <= self.data@.len(),
                self.wf(),
                find_live(self@.data, self@.counts, value, 1) == find_live(
                    self@.data,
                    self@.counts,
                    value,
                    i as int,
                ),
            decreases self.data@.len() - i,
        {
            if self.data[i] == value && 0 < self.reference_counts[i] && self.reference_counts[i]
                < usize::MAX {
                return Some(i);
            }
            i += 1;
        }
        None
    }

    /// Interns a value and hands out its address, or nothing where the store
    /// is full.
    pub fn intern(&mut self, value: Value) -> (address: Option<usize>)
        requires
            old(self).wf(),
        ensures
            final(self).wf(),
            final(self)@ == old(self)@.intern(value),
            match address {
                Some(a) => old(self)@.intern_address(value) == Some(a as int),
                None => old(self)@.intern_address(value) is None,
            },
    {
        proof {
            lemma_step_keeps_free(self@, StoreOp::Intern(value));
            lemma_find_live(self@.data, self@.counts, value, 1);
        }
        if value.is_empty() {
            return Some(0);
        }
        match self.find(value) {
            Some(a) => {
                self.reference_counts.set(a, self.reference_counts[a] + 1);
                assert(self@ =~= old(self)@.intern(value));
                Some(a)
            },
            None => {
                if self.data.len() < self.capacity {
                    let a: usize = self.data.len();
                    self.data.push(value);
                    self.reference_counts.push(1);
                    assert(self@ =~= old(self)@.intern(value));
                    Some(a)
                } else if self.free_next < self.free.len() {
                    let a: usize = self.free[self.free_next];
                    assert(old(self)@.free[0] == a);
                    self.free_next += 1;
                    self.data.set(a, value);
                    self.reference_counts.set(a, 1);
                    assert(self@ =~= old(self)@.intern(value));
                    Some(a)
                } else {
                    None
                }
            },
        }
    }

    /// Takes one reference away from the value at `address`.
    pub fn dereference(&mut self, address: usize)
        requires
            old(self).wf(),
        ensures
            final(self).wf(),
            final(self)@ == old(self)@.dereference(address),
    {
        proof {
            lemma_step_keeps_free(self@, StoreOp::Dereference(address));
        }
        if 1 <= address && address < self.reference_counts.len() && self.reference_counts[address]
            > 0 {
            let left: usize = self.reference_counts[address] - 1;
            self.reference_counts.set(address, left);
            if left == 0 {
                self.free.push(address);
            }
            assert(self@ =~= old(self)@.dereference(address));
        }
    }

    /// The value at `address`.
    pub fn get(&self, address: usize) -> (value: Option<Value>)
        requires
            self.wf(),
        ensures
            value == (if address < self@.data.len() {
                Some(self@.data[address as int])
            } else {
                None
            }),
    {
        if address < self.data.len() {
            Some(self.data[address])
        } else {
            None
        }
    }

    /// The number of references to the value at `address`.
    pub fn reference_count(&self, address: usize) -> (n: usize)
        requires
            self.wf(),
        ensures
            n == self@.count(address as int),
    {
        if address < self.reference_counts.len() {
            self.reference_counts[address]
        } else {
            0
        }
    }
}

} // verus!
