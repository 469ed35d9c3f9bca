//! A table with a fixed number of slots. A key that is already in the table
//! can always be updated; a new key is taken only while a slot is free, and
//! is otherwise left out without an error. Nothing is ever evicted.
//!
//! The slots keep the order in which their keys first arrived; a hashed
//! index finds a key's slot in constant time.

use std::collections::HashMap;
use vstd::prelude::*;
use crate::stats::FlowKey;

verus! {

broadcast use vstd::std_specs::hash::group_hash_axioms;

/// A key that a table can index: it has a 64-bit code, and no two keys share
/// one.
pub trait TableKey: Copy + Sized {
    spec fn code_spec(self) -> u64;

    fn code(&self) -> (c: u64)
        ensures
            c == self.code_spec(),
    ;

    proof fn lemma_code_injective(a: Self, b: Self)
        requires
            a.code_spec() == b.code_spec(),
        ensures
            a == b,
    ;
}

impl TableKey for u16 {
    open spec fn code_spec(self) -> u64 {
        self as u64
    }

    fn code(&self) -> (c: u64) {
        *self as u64
    }

    proof fn lemma_code_injective(a: Self, b: Self) {
    }
}

impl TableKey for u32 {
    open spec fn code_spec(self) -> u64 {
        self as u64
    }

    fn code(&self) -> (c: u64) {
        *self as u64
    }

    proof fn lemma_code_injective(a: Self, b: Self) {
    }
}

impl TableKey for u64 {
    open spec fn code_spec(self) -> u64 {
        self
    }

    fn code(&self) -> (c: u64) {
        *self
    }

    proof fn lemma_code_injective(a: Self, b: Self) {
    }
}

impl TableKey for FlowKey {
    /// Address, port, protocol and direction side by side: 32, 16, 8 and 8
    /// bits.
    open spec fn code_spec(self) -> u64 {
        (self.ip * 0x1_0000_0000 + self.port * 0x1_0000 + self.protocol * 0x100
            + self.direction) as u64
    }

    fn code(&self) -> (c: u64) {
        (self.ip as u64) * 0x1_0000_0000 + (self.port as u64) * 0x1_0000 + (self.protocol as u64)
            * 0x100 + (self.direction as u64)
    }

    proof fn lemma_code_injective(a: Self, b: Self) {
        let low_a = a.port * 0x1_0000 + a.protocol * 0x100 + a.direction;
        let low_b = b.port * 0x1_0000 + b.protocol * 0x100 + b.direction;
        assert(0 <= low_a < 0x1_0000_0000 && 0 <= low_b < 0x1_0000_0000);
        assert(a.code_spec() == a.ip * 0x1_0000_0000 + low_a);
        assert(b.code_spec() == b.ip * 0x1_0000_0000 + low_b);
        assert(a.ip == b.ip) by {
            if a.ip < b.ip {
                assert(a.ip + 1 <= b.ip);
            } else if b.ip < a.ip {
                assert(b.ip + 1 <= a.ip);
            }
        }
        assert(low_a == low_b);
        let tail_a = a.protocol * 0x100 + a.direction;
        let tail_b = b.protocol * 0x100 + b.direction;
        assert(a.port == b.port) by {
            if a.port < b.port {
                assert(a.port + 1 <= b.port);
            } else if b.port < a.port {
                assert(b.port + 1 <= a.port);
            }
        }
        assert(tail_a == tail_b);
        assert(a.protocol == b.protocol) by {
            if a.protocol < b.protocol {
                assert(a.protocol + 1 <= b.protocol);
            } else if b.protocol < a.protocol {
                assert(b.protocol + 1 <= a.protocol);
            }
        }
    }
}

/// One occupied slot: a key and what the table holds for it.
#[derive(Debug)]
pub struct Slot<K, V> {
    pub key: K,
    pub value: V,
}

/// The first slot of `s` that holds `k`, if any.
pub open spec fn position<K, V>(s: Seq<Slot<K, V>>, k: K) -> Option<int>
    decreases s.len(),
{
    if s.len() == 0 {
        None
    } else {
        match position(s.drop_last(), k) {
            Some(i) => Some(i),
            None => if s.last().key == k {
                Some(s.len() - 1)
            } else {
                None
            },
        }
    }
}

/// What `s` holds for `k`, if anything.
pub open spec fn lookup<K, V>(s: Seq<Slot<K, V>>, k: K) -> Option<V> {
    match position(s, k) {
        Some(i) => Some(s[i].value),
        None => None,
    }
}

/// The slots after `k` is given the value `v` in a table of `capacity`
/// slots: the key's slot is overwritten where it has one, a new slot is
/// appended where one is free, and nothing changes otherwise.
pub open spec fn put<K, V>(s: Seq<Slot<K, V>>, capacity: nat, k: K, v: V) -> Seq<Slot<K, V>> {
    match position(s, k) {
        Some(i) => s.update(i, Slot { key: k, value: v }),
        None => if s.len() < capacity {
            s.push(Slot { key: k, value: v })
        } else {
            s
        },
    }
}

/// Whether `put` stores the value: the key is present or a slot is free.
pub open spec fn accepts<K, V>(s: Seq<Slot<K, V>>, capacity: nat, k: K) -> bool {
    position(s, k) is Some || s.len() < capacity
}

/// The slots as a map from key to value.
pub open spec fn to_map<K, V>(s: Seq<Slot<K, V>>) -> Map<K, V> {
    Map::new(|k: K| position(s, k) is Some, |k: K| s[position(s, k).unwrap()].value)
}

/// No key occupies two slots.
pub open spec fn distinct_keys<K, V>(s: Seq<Slot<K, V>>) -> bool {
    forall|i: int, j: int| 0 <= i < j < s.len() ==> s[i].key != s[j].key
}

/// `position` finds the first slot with the key, and finds none only where
/// no slot has it.
pub proof fn lemma_position<K, V>(s: Seq<Slot<K, V>>, k: K)
    ensures
        match position(s, k) {
            Some(i) => 0 <= i < s.len() && s[i].key == k && forall|j: int|
                0 <= j < i ==> s[j].key != k,
            None => forall|j: int| 0 <= j < s.len() ==> s[j].key != k,
        },
    decreases s.len(),
{
    if s.len() > 0 {
        let front = s.drop_last();
        lemma_position(front, k);
        assert(forall|j: int| 0 <= j < front.len() ==> front[j] == s[j]);
    }
}

/// A slot that holds `k`, with no earlier slot that does, is `k`'s position.
pub proof fn lemma_position_is<K, V>(s: Seq<Slot<K, V>>, k: K, i: int)
    requires
        0 <= i < s.len(),
        s[i].key == k,
        forall|j: int| 0 <= j < i ==> s[j].key != k,
    ensures
        position(s, k) == Some(i),
{
    lemma_position(s, k);
}

/// No slot holds `k`, so it has no position.
pub proof fn lemma_position_none<K, V>(s: Seq<Slot<K, V>>, k: K)
    requires
        forall|j: int| 0 <= j < s.len() ==> s[j].key != k,
    ensures
        position(s, k) is None,
{
    lemma_position(s, k);
}

/// After `put`, the key that was put has the new value where the table took
/// it, and every other key has what it had.
pub proof fn lemma_put_lookup<K, V>(s: Seq<Slot<K, V>>, capacity: nat, k: K, v: V, other: K)
    ensures
        lookup(put(s, capacity, k, v), other) == if other == k {
            if accepts(s, capacity, k) {
                Some(v)
            } else {
                None
            }
        } else {
            lookup(s, other)
        },
{
    let t = put(s, capacity, k, v);
    lemma_position(s, k);
    lemma_position(s, other);
    lemma_position(t, other);
    match position(s, k) {
        Some(i) => {
            assert(forall|j: int| 0 <= j < s.len() ==> #[trigger] t[j].key == s[j].key);
            if other == k {
                lemma_position_is(t, other, i);
            } else {
                match position(s, other) {
                    Some(p) => {
                        lemma_position_is(t, other, p);
                    },
                    None => {
                        lemma_position_none(t, other);
                    },
                }
            }
        },
        None => {
            if s.len() < capacity {
                assert(forall|j: int| 0 <= j < s.len() ==> #[trigger] t[j] == s[j]);
                if other == k {
                    lemma_position_is(t, other, s.len() as int);
                } else {
                    match position(s, other) {
                        Some(p) => {
                            lemma_position_is(t, other, p);
                        },
                        None => {
                            lemma_position_none(t, other);
                        },
                    }
                }
            }
        },
    }
}

/// As a map, `put` is an insertion where the table takes the value, and
/// changes nothing where it does not.
pub proof fn lemma_put_map<K, V>(s: Seq<Slot<K, V>>, capacity: nat, k: K, v: V)
    ensures
        to_map(put(s, capacity, k, v)) == if accepts(s, capacity, k) {
            to_map(s).insert(k, v)
        } else {
            to_map(s)
        },
{
    let t = put(s, capacity, k, v);
    let expected = if accepts(s, capacity, k) {
        to_map(s).insert(k, v)
    } else {
        to_map(s)
    };
    assert forall|other: K| #[trigger]
        to_map(t).contains_key(other) == expected.contains_key(other) && (to_map(t).contains_key(
            other,
        ) ==> to_map(t)[other] == expected[other]) by {
        lemma_put_lookup(s, capacity, k, v, other);
    }
    assert(to_map(t) =~= expected);
}

/// `put` keeps the keys distinct and never shrinks the table or lets it
/// grow past its capacity.
pub proof fn lemma_put_shape<K, V>(s: Seq<Slot<K, V>>, capacity: nat, k: K, v: V)
    requires
        distinct_keys(s),
        s.len() <= capacity,
    ensures
        distinct_keys(put(s, capacity, k, v)),
        s.len() <= put(s, capacity, k, v).len() <= capacity,
        put(s, capacity, k, v).len() == if position(s, k) is None && s.len() < capacity {
            s.len() + 1
        } else {
            s.len()
        },
{
    lemma_position(s, k);
}

/// A table of at most `capacity` slots, keyed by `K`.
pub struct BoundedTable<K: TableKey, V: Copy> {
    slots: Vec<Slot<K, V>>,
    index: HashMap<u64, usize>,
    capacity: usize,
}

impl<K: TableKey, V: Copy> BoundedTable<K, V> {
    /// The table's invariant: it is within its capacity and the index finds
    /// exactly the occupied slots.
    pub closed spec fn wf(&self) -> bool {
        &&& self.slots@.len() <= self.capacity
        &&& forall|i: int|
            0 <= i < self.slots@.len() ==> self.index@.contains_key(
                (#[trigger] self.slots@[i]).key.code_spec(),
            ) && self.index@[self.slots@[i].key.code_spec()] == i
        &&& forall|c: u64| #[trigger]
            self.index@.contains_key(c) ==> self.index@[c] < self.slots@.len()
                && self.slots@[self.index@[c] as int].key.code_spec() == c
    }

    /// The occupied slots, in the order in which their keys arrived.
    pub closed spec fn entries(&self) -> Seq<Slot<K, V>> {
        self.slots@
    }

    /// The number of slots the table was made with.
    pub closed spec fn capacity_spec(&self) -> nat {
        self.capacity as nat
    }

    /// The table as a map from key to value.
    pub open spec fn view(&self) -> Map<K, V> {
        to_map(self.entries())
    }

    /// A well-formed table holds each key once and is within its capacity.
    pub proof fn lemma_wf(&self)
        requires
            self.wf(),
        ensures
            distinct_keys(self.entries()),
            self.entries().len() <= self.capacity_spec(),
            self.capacity_spec() <= usize::MAX,
    {
        assert forall|i: int, j: int| 0 <= i < j < self.slots@.len() implies self.slots@[i].key
            != self.slots@[j].key by {
            let a = self.slots@[i];
            let b = self.slots@[j];
            if a.key == b.key {
                assert(self.index@[a.key.code_spec()] == i);
                assert(self.index@[b.key.code_spec()] == j);
            }
        }
    }

    proof fn lemma_index(&self, k: K)
        requires
            self.wf(),
        ensures
            self.index@.contains_key(k.code_spec()) <==> position(self.slots@, k) is Some,
            self.index@.contains_key(k.code_spec()) ==> position(self.slots@, k) == Some(
                self.index@[k.code_spec()] as int,
            ),
    {
        let c = k.code_spec();
        lemma_position(self.slots@, k);
        self.lemma_wf();
        if self.index@.contains_key(c) {
            let i = self.index@[c] as int;
            K::lemma_code_injective(self.slots@[i].key, k);
            assert forall|j: int| 0 <= j < i implies self.slots@[j].key != k by {
                assert(self.slots@[j].key != self.slots@[i].key);
            }
            lemma_position_is(self.slots@, k, i);
        } else {
            match position(self.slots@, k) {
                Some(i) => {
                    assert(self.index@.contains_key(self.slots@[i].key.code_spec()));
                },
                None => {},
            }
        }
    }

    /// An empty table of `capacity` slots.
    pub fn new(capacity: usize) -> (t: Self)
        ensures
            t.wf(),
            t.entries() == Seq::<Slot<K, V>>::empty(),
            t.capacity_spec() == capacity,
    {
        BoundedTable { slots: Vec::new(), index: HashMap::new(), capacity }
    }

    /// The number of occupied slots.
    pub fn len(&self) -> (n: usize)
        ensures
            n == self.entries().len(),
    {
        self.slots.len()
    }

    /// The number of slots the table was made with.
    pub fn capacity(&self) -> (n: usize)
        ensures
            n == self.capacity_spec(),
    {
        self.capacity
    }

    /// What the table holds for `key`.
    pub fn get(&self, key: &K) -> (r: Option<V>)
        requires
            self.wf(),
        ensures
            r == lookup(self.entries(), *key),
            r is Some <==> self@.contains_key(*key),
            r is Some ==> r.unwrap() == self@[*key],
    {
        let code = key.code();
        proof {
            self.lemma_index(*key);
        }
        match self.index.get(&code) {
            Some(i) => Some(self.slots[*i].value),
            None => None,
        }
    }

    /// Gives `key` the value `value` where the key is present or a slot is
    /// free, and says whether it did. A new key for a full table is left
    /// out, and the table stays as it was.
    pub fn insert(&mut self, key: K, value: V) -> (stored: bool)
        requires
            old(self).wf(),
        ensures
            final(self).wf(),
            final(self).capacity_spec() == old(self).capacity_spec(),
            final(self).entries() == put(old(self).entries(), old(self).capacity_spec(), key, value),
            stored == accepts(old(self).entries(), old(self).capacity_spec(), key),
            final(self)@ == if stored {
                old(self)@.insert(key, value)
            } else {
                old(self)@
            },
    {
        let code = key.code();
        proof {
            self.lemma_index(key);
            self.lemma_wf();
            lemma_put_map(self.slots@, self.capacity as nat, key, value);
        }
        let found: Option<usize> = match self.index.get(&code) {
            Some(i) => Some(*i),
            None => None,
        };
        match found {
            Some(i) => {
                self.slots.set(i, Slot { key, value });
                true
            },
            None => {
                if self.slots.len() < self.capacity {
                    let ghost before = self.slots@;
                    let at = self.slots.len();
                    self.index.insert(code, at);
                    self.slots.push(Slot { key, value });
                    proof {
                        lemma_position(before, key);
                        assert forall|c: u64| #[trigger]
                            self.index@.contains_key(c) implies self.index@[c] < self.slots@.len()
                            && self.slots@[self.index@[c] as int].key.code_spec() == c by {
                            if c != code {
                                assert(old(self).index@.contains_key(c));
                            }
                        }
                        assert forall|i: int| 0 <= i < self.slots@.len() implies self.index@.contains_key(
                            (#[trigger] self.slots@[i]).key.code_spec(),
                        ) && self.index@[self.slots@[i].key.code_spec()] == i by {
                            if i < before.len() {
                                assert(self.slots@[i] == before[i]);
                                if before[i].key.code_spec() == code {
                                    K::lemma_code_injective(before[i].key, key);
                                }
                            }
                        }
                    }
                    true
                } else {
                    false
                }
            },
        }
    }

    /// A copy of the occupied slots, in the order in which their keys
    /// arrived.
    pub fn to_vec(&self) -> (v: Vec<Slot<K, V>>)
        ensures
            v@ == self.entries(),
    {
        let mut v: Vec<Slot<K, V>> = Vec::new();
        let mut i: usize = 0;
        while i < self.slots.len()
            invariant
                i <= self.slots@.len(),
                v@ == self.slots@.take(i as int),
            decreases self.slots@.len() - i,
        {
            let slot = &self.slots[i];
            v.push(Slot { key: slot.key, value: slot.value });
            i += 1;
            assert(self.slots@.take(i as int) == self.slots@.take(i - 1).push(self.slots@[i - 1]));
        }
        assert(self.slots@.take(i as int) == self.slots@);
        v
    }
}

} // verus!
