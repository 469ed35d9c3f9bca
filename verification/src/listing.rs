//! The store as a listing: its entries in the byte order of their keys,
//! each key once. Seeking, range scans, puts and deletes are stated here as
//! functions of listings.

use vstd::prelude::*;
use crate::storage_keys::Bounds;
use crate::text::{
    lemma_lex_le_antisym,
    lemma_lex_le_refl,
    lemma_lex_le_trans,
    lemma_lex_not_le,
    lex_le,
    lex_lt,
};

verus! {

/// One entry of the store: a key and the bytes stored under it.
pub struct Pair {
    pub key: Seq<u8>,
    pub value: Seq<u8>,
}

/// The entries of a store, or of a part of it.
pub type Listing = Seq<Pair>;

/// Whether the keys of a listing rise strictly.
pub open spec fn sorted(l: Listing) -> bool {
    forall|i: int, j: int| 0 <= i < j < l.len() ==> lex_lt(l[i].key, l[j].key)
}

/// The place of the first entry whose key is not before `start`; the
/// length of the listing where every key is before it.
pub open spec fn seek(l: Listing, start: Seq<u8>) -> int
    decreases l.len(),
{
    if l.len() == 0 || lex_le(start, l[0].key) {
        0
    } else {
        1 + seek(l.drop_first(), start)
    }
}

/// The number of entries at the front of a listing that the bounds admit,
/// up to the first that they do not.
pub open spec fn admitted_run(l: Listing, bounds: Bounds) -> int
    decreases l.len(),
{
    if l.len() == 0 || !bounds.admits(l[0].key) {
        0
    } else {
        1 + admitted_run(l.drop_first(), bounds)
    }
}

/// The values that a range scan reads: those of the entries from the first
/// key that is not before the start key, as long as the bounds admit the
/// keys.
pub open spec fn scanned(l: Listing, bounds: Bounds) -> Seq<Seq<u8>> {
    let from = seek(l, bounds.start);
    Seq::new(admitted_run(l.skip(from), bounds) as nat, |j: int| l[from + j].value)
}

/// What a listing holds under `key`, if anything.
pub open spec fn value_at(l: Listing, key: Seq<u8>) -> Option<Seq<u8>> {
    let i = seek(l, key);
    if i < l.len() && l[i].key == key {
        Some(l[i].value)
    } else {
        None
    }
}

/// A listing after `value` is stored under `key`: in place of the value
/// that the key had, or as a new entry at the key's place in the order.
pub open spec fn store_put(l: Listing, key: Seq<u8>, value: Seq<u8>) -> Listing {
    let i = seek(l, key);
    if i < l.len() && l[i].key == key {
        l.update(i, Pair { key, value })
    } else {
        l.insert(i, Pair { key, value })
    }
}

/// A listing after the entry of `key` is taken out, if there is one.
pub open spec fn store_delete(l: Listing, key: Seq<u8>) -> Listing {
    let i = seek(l, key);
    if i < l.len() && l[i].key == key {
        l.remove(i)
    } else {
        l
    }
}

/// A listing after the entries of `puts` are stored, first to last.
pub open spec fn apply_puts(l: Listing, puts: Seq<Pair>) -> Listing
    decreases puts.len(),
{
    if puts.len() == 0 {
        l
    } else {
        store_put(apply_puts(l, puts.drop_last()), puts.last().key, puts.last().value)
    }
}

/// Seeking lands within the listing, after every key before `start` and at
/// a key that is not before it.
pub proof fn lemma_seek(l: Listing, start: Seq<u8>)
    ensures
        0 <= seek(l, start) <= l.len(),
        forall|j: int| 0 <= j < seek(l, start) ==> !lex_le(start, (#[trigger] l[j]).key),
        seek(l, start) < l.len() ==> lex_le(start, l[seek(l, start)].key),
    decreases l.len(),
{
    if !(l.len() == 0 || lex_le(start, l[0].key)) {
        let t = l.drop_first();
        lemma_seek(t, start);
        assert forall|j: int| 0 <= j < seek(l, start) implies !lex_le(
            start,
            (#[trigger] l[j]).key,
        ) by {
            if j > 0 {
                assert(l[j] == t[j - 1]);
            }
        }
    }
}

/// The place after every key before `start`, at a key that is not before
/// it or at the end, is where seeking lands.
pub proof fn lemma_seek_is(l: Listing, start: Seq<u8>, n: int)
    requires
        0 <= n <= l.len(),
        forall|j: int| 0 <= j < n ==> !lex_le(start, (#[trigger] l[j]).key),
        n < l.len() ==> lex_le(start, l[n].key),
    ensures
        seek(l, start) == n,
    decreases n,
{
    if n > 0 {
        let t = l.drop_first();
        assert(!lex_le(start, l[0].key));
        assert forall|j: int| 0 <= j < n - 1 implies !lex_le(start, (#[trigger] t[j]).key) by {
            assert(t[j] == l[j + 1]);
        }
        lemma_seek_is(t, start, n - 1);
    }
}

/// The number of admitted entries at the front is the place of the first
/// entry that is not admitted.
pub proof fn lemma_run_is(l: Listing, bounds: Bounds, n: int)
    requires
        0 <= n <= l.len(),
        forall|j: int| 0 <= j < n ==> bounds.admits((#[trigger] l[j]).key),
        n < l.len() ==> !bounds.admits(l[n].key),
    ensures
        admitted_run(l, bounds) == n,
    decreases n,
{
    if n > 0 {
        let t = l.drop_first();
        assert(bounds.admits(l[0].key));
        assert forall|j: int| 0 <= j < n - 1 implies bounds.admits((#[trigger] t[j]).key) by {
            assert(t[j] == l[j + 1]);
        }
        lemma_run_is(t, bounds, n - 1);
    }
}

/// The admitted entries at the front are admitted, and the entry after
/// them, if there is one, is not.
pub proof fn lemma_run(l: Listing, bounds: Bounds)
    ensures
        0 <= admitted_run(l, bounds) <= l.len(),
        forall|j: int|
            0 <= j < admitted_run(l, bounds) ==> bounds.admits((#[trigger] l[j]).key),
        admitted_run(l, bounds) < l.len() ==> !bounds.admits(l[admitted_run(l, bounds)].key),
    decreases l.len(),
{
    if !(l.len() == 0 || !bounds.admits(l[0].key)) {
        let t = l.drop_first();
        lemma_run(t, bounds);
        assert forall|j: int| 0 <= j < admitted_run(l, bounds) implies bounds.admits(
            (#[trigger] l[j]).key,
        ) by {
            if j > 0 {
                assert(l[j] == t[j - 1]);
            }
        }
    }
}

/// In a sorted listing a key is held at one place at most, and `value_at`
/// finds it there.
pub proof fn lemma_value_at(l: Listing, key: Seq<u8>)
    requires
        sorted(l),
    ensures
        match value_at(l, key) {
            Some(v) => exists|i: int| 0 <= i < l.len() && #[trigger] l[i] == (Pair { key, value: v }),
            None => forall|i: int| 0 <= i < l.len() ==> (#[trigger] l[i]).key != key,
        },
        forall|i: int|
            0 <= i < l.len() && (#[trigger] l[i]).key == key ==> value_at(l, key) == Some(
                l[i].value,
            ),
{
    let n = seek(l, key);
    lemma_seek(l, key);
    lemma_lex_le_refl(key);
    assert forall|i: int| 0 <= i < l.len() && (#[trigger] l[i]).key == key implies i == n by {
        if i < n {
            assert(!lex_le(key, l[i].key));
        } else if i > n {
            assert(lex_lt(l[n].key, l[i].key));
            lemma_lex_not_le(l[n].key, key);
        }
    }
    if n < l.len() && l[n].key == key {
        assert(l[n] == (Pair { key, value: l[n].value }));
    }
}

/// Storing keeps a sorted listing sorted; afterwards the key holds the
/// value stored, and every other key holds what it held.
pub proof fn lemma_store_put(l: Listing, key: Seq<u8>, value: Seq<u8>, other: Seq<u8>)
    requires
        sorted(l),
    ensures
        sorted(store_put(l, key, value)),
        value_at(store_put(l, key, value), other) == if other == key {
            Some(value)
        } else {
            value_at(l, other)
        },
        store_put(l, key, value).len() == if value_at(l, key) is Some {
            l.len()
        } else {
            l.len() + 1
        },
{
    let n = seek(l, key);
    let after = store_put(l, key, value);
    let entry = Pair { key, value };
    lemma_seek(l, key);
    let found = n < l.len() && l[n].key == key;
    assert forall|i: int, j: int| 0 <= i < j < after.len() implies lex_lt(
        after[i].key,
        after[j].key,
    ) by {
        if found {
            assert(after[i].key == l[i].key);
            assert(after[j].key == l[j].key);
        } else {
            let oi = if i < n {
                i
            } else {
                i - 1
            };
            let oj = if j < n {
                j
            } else {
                j - 1
            };
            if i == n {
                // the new entry against a later one
                assert(after[j] == l[oj]);
                assert(lex_le(key, l[n].key));
                if oj > n {
                    assert(lex_lt(l[n].key, l[oj].key));
                    lemma_lex_le_trans(key, l[n].key, l[oj].key);
                    if key == l[oj].key {
                        lemma_lex_le_antisym(l[n].key, l[oj].key);
                    }
                }
            } else if j == n {
                // an earlier entry against the new one
                assert(after[i] == l[oi]);
                assert(!lex_le(key, l[oi].key));
                lemma_lex_not_le(key, l[oi].key);
            } else {
                assert(after[i] == l[oi]);
                assert(after[j] == l[oj]);
            }
        }
    }
    lemma_value_at(l, other);
    lemma_value_at(after, other);
    if other == key {
        assert(after[n] == entry);
    } else {
        match value_at(l, other) {
            Some(v) => {
                let i = choose|i: int| 0 <= i < l.len() && #[trigger] l[i] == (Pair {
                    key: other,
                    value: v,
                });
                let ni = if found || i < n {
                    i
                } else {
                    i + 1
                };
                assert(after[ni] == l[i]);
            },
            None => {
                assert forall|i: int| 0 <= i < after.len() implies (#[trigger] after[i]).key
                    != other by {
                    if found {
                        if i != n {
                            assert(after[i] == l[i]);
                        }
                    } else {
                        let oi = if i < n {
                            i
                        } else {
                            i - 1
                        };
                        if i != n {
                            assert(after[i] == l[oi]);
                        }
                    }
                }
            },
        }
    }
}

/// Deleting keeps a sorted listing sorted; afterwards the key holds
/// nothing, and every other key holds what it held.
pub proof fn lemma_store_delete(l: Listing, key: Seq<u8>, other: Seq<u8>)
    requires
        sorted(l),
    ensures
        sorted(store_delete(l, key)),
        value_at(store_delete(l, key), other) == if other == key {
            None
        } else {
            value_at(l, other)
        },
{
    let n = seek(l, key);
    let after = store_delete(l, key);
    lemma_seek(l, key);
    let found = n < l.len() && l[n].key == key;
    assert forall|i: int, j: int| 0 <= i < j < after.len() implies lex_lt(
        after[i].key,
        after[j].key,
    ) by {
        if found {
            let oi = if i < n {
                i
            } else {
                i + 1
            };
            let oj = if j < n {
                j
            } else {
                j + 1
            };
            assert(after[i] == l[oi]);
            assert(after[j] == l[oj]);
        }
    }
    lemma_value_at(l, other);
    lemma_value_at(after, other);
    lemma_value_at(l, key);
    if found {
        match value_at(after, other) {
            Some(v) => {
                let i = choose|i: int| 0 <= i < after.len() && #[trigger] after[i] == (Pair {
                    key: other,
                    value: v,
                });
                let oi = if i < n {
                    i
                } else {
                    i + 1
                };
                assert(after[i] == l[oi]);
                if other == key {
                    if oi < n {
                        assert(lex_lt(l[oi].key, l[n].key));
                    } else {
                        assert(lex_lt(l[n].key, l[oi].key));
                    }
                }
            },
            None => {
                if other != key {
                    assert forall|i: int| 0 <= i < l.len() implies (#[trigger] l[i]).key
                        != other by {
                        if i != n {
                            let ni = if i < n {
                                i
                            } else {
                                i - 1
                            };
                            assert(after[ni] == l[i]);
                        }
                    }
                }
            },
        }
    }
}

} // verus!
