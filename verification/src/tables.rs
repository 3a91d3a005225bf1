//! The registry's state tables.
//!
//! Every table is a vector of key/value pairs with pairwise-distinct keys.
//! The spec functions below give such a vector its mathematical reading
//! (membership and the value bound to a key), and `owner_count` counts how
//! many slots of an owner column belong to one identity; the lemmas relate
//! those readings across the updates the registry performs.

use vstd::prelude::*;

verus! {

/// An account identity: an opaque fixed-width value, compared only for
/// equality. The hosting environment supplies one per call.
pub type AccountId = u64;

/// All keys of an association table are pairwise distinct.
pub open spec fn keys_unique<K, V>(s: Seq<(K, V)>) -> bool {
    forall|i: int, j: int|
        0 <= i < s.len() && 0 <= j < s.len() && i != j ==> (#[trigger] s[i]).0 != (
        #[trigger] s[j]).0
}

/// Some entry of the table carries the key `k`.
pub open spec fn has_key<K, V>(s: Seq<(K, V)>, k: K) -> bool {
    exists|i: int| 0 <= i < s.len() && (#[trigger] s[i]).0 == k
}

/// The position of the entry carrying `k`, when one exists.
pub open spec fn key_index<K, V>(s: Seq<(K, V)>, k: K) -> int {
    choose|i: int| 0 <= i < s.len() && (#[trigger] s[i]).0 == k
}

/// The value bound to `k`, when an entry carries it.
pub open spec fn val_of<K, V>(s: Seq<(K, V)>, k: K) -> V
    recommends
        has_key(s, k),
{
    s[key_index(s, k)].1
}

/// A balance table read: the count bound to `a`, or zero when absent.
pub open spec fn bal_of(s: Seq<(AccountId, u32)>, a: AccountId) -> u32 {
    if has_key(s, a) {
        val_of(s, a)
    } else {
        0
    }
}

/// An owned-token index read: the id list bound to `a`, or empty when absent.
pub open spec fn owned_of(s: Seq<(AccountId, Vec<u32>)>, a: AccountId) -> Seq<u32> {
    if has_key(s, a) {
        val_of(s, a)@
    } else {
        Seq::empty()
    }
}

/// The entry carrying `k` sits in range and indeed carries `k`.
pub proof fn lemma_key_index<K, V>(s: Seq<(K, V)>, k: K)
    requires
        has_key(s, k),
    ensures
        0 <= key_index(s, k) < s.len(),
        s[key_index(s, k)].0 == k,
{
}

/// With distinct keys, an entry found at position `i` is the entry `val_of`
/// speaks of.
pub proof fn lemma_val_at<K, V>(s: Seq<(K, V)>, k: K, i: int)
    requires
        keys_unique(s),
        0 <= i < s.len(),
        s[i].0 == k,
    ensures
        has_key(s, k),
        key_index(s, k) == i,
        val_of(s, k) == s[i].1,
{
    assert(has_key(s, k));
    lemma_key_index(s, k);
}

/// Overwriting the value at position `i` keeps the keys distinct, binds the
/// entry's key to the new value, and leaves every other key's binding alone.
pub proof fn lemma_update_entry<K, V>(s: Seq<(K, V)>, i: int, v: V)
    requires
        keys_unique(s),
        0 <= i < s.len(),
    ensures
        keys_unique(s.update(i, (s[i].0, v))),
        has_key(s.update(i, (s[i].0, v)), s[i].0),
        val_of(s.update(i, (s[i].0, v)), s[i].0) == v,
        forall|k: K|
            k != s[i].0 ==> #[trigger] has_key(s.update(i, (s[i].0, v)), k) == has_key(s, k),
        forall|k: K|
            k != s[i].0 && has_key(s, k) ==> #[trigger] val_of(s.update(i, (s[i].0, v)), k)
                == val_of(s, k),
{
    let t = s.update(i, (s[i].0, v));
    assert(forall|j: int| 0 <= j < s.len() ==> (#[trigger] t[j]).0 == s[j].0);
    lemma_val_at(t, s[i].0, i);
    assert forall|k: K| k != s[i].0 implies #[trigger] has_key(t, k) == has_key(s, k) by {
        if has_key(s, k) {
            let j = key_index(s, k);
            lemma_key_index(s, k);
            assert(t[j].0 == k);
        }
        if has_key(t, k) {
            let j = key_index(t, k);
            lemma_key_index(t, k);
            assert(s[j].0 == k);
        }
    }
    assert forall|k: K| k != s[i].0 && has_key(s, k) implies #[trigger] val_of(t, k) == val_of(
        s,
        k,
    ) by {
        let j = key_index(s, k);
        lemma_key_index(s, k);
        assert(j != i);
        lemma_val_at(t, k, j);
    }
}

/// Appending an entry with a fresh key keeps the keys distinct, binds the new
/// key, and leaves every other key's binding alone.
pub proof fn lemma_push_entry<K, V>(s: Seq<(K, V)>, k: K, v: V)
    requires
        keys_unique(s),
        !has_key(s, k),
    ensures
        keys_unique(s.push((k, v))),
        has_key(s.push((k, v)), k),
        val_of(s.push((k, v)), k) == v,
        forall|b: K| b != k ==> #[trigger] has_key(s.push((k, v)), b) == has_key(s, b),
        forall|b: K|
            b != k && has_key(s, b) ==> #[trigger] val_of(s.push((k, v)), b) == val_of(s, b),
{
    let t = s.push((k, v));
    assert(forall|j: int| 0 <= j < s.len() ==> (#[trigger] t[j]).0 == s[j].0);
    assert(t[s.len() as int].0 == k);
    assert forall|i: int, j: int|
        0 <= i < t.len() && 0 <= j < t.len() && i != j implies (#[trigger] t[i]).0 != (
    #[trigger] t[j]).0 by {
        if i < s.len() && j < s.len() {
        } else if i == s.len() {
            assert(s[j].0 != k) by {
                if s[j].0 == k {
                    assert(has_key(s, k));
                }
            }
        } else {
            assert(s[i].0 != k) by {
                if s[i].0 == k {
                    assert(has_key(s, k));
                }
            }
        }
    }
    lemma_val_at(t, k, s.len() as int);
    assert forall|b: K| b != k implies #[trigger] has_key(t, b) == has_key(s, b) by {
        if has_key(s, b) {
            let j = key_index(s, b);
            lemma_key_index(s, b);
            assert(t[j].0 == b);
        }
        if has_key(t, b) {
            let j = key_index(t, b);
            lemma_key_index(t, b);
            assert(j < s.len());
            assert(s[j].0 == b);
        }
    }
    assert forall|b: K| b != k && has_key(s, b) implies #[trigger] val_of(t, b) == val_of(
        s,
        b,
    ) by {
        let j = key_index(s, b);
        lemma_key_index(s, b);
        lemma_val_at(t, b, j);
    }
}

/// How many slots of the owner column belong to `a`.
pub open spec fn owner_count(owners: Seq<AccountId>, a: AccountId) -> nat
    decreases owners.len(),
{
    if owners.len() == 0 {
        0nat
    } else {
        owner_count(owners.drop_last(), a) + if owners.last() == a {
            1nat
        } else {
            0nat
        }
    }
}

/// Appending one slot raises the count of its owner by one and no other.
pub proof fn lemma_owner_count_push(s: Seq<AccountId>, x: AccountId, a: AccountId)
    ensures
        owner_count(s.push(x), a) == owner_count(s, a) + if x == a {
            1nat
        } else {
            0nat
        },
{
    assert(s.push(x).drop_last() =~= s);
    assert(s.push(x).last() == x);
}

/// No identity owns more slots than the column has.
pub proof fn lemma_owner_count_le(s: Seq<AccountId>, a: AccountId)
    ensures
        owner_count(s, a) <= s.len(),
    decreases s.len(),
{
    if s.len() > 0 {
        lemma_owner_count_le(s.drop_last(), a);
    }
}

/// An identity that holds some slot owns at least one.
pub proof fn lemma_owner_count_at(s: Seq<AccountId>, a: AccountId, i: int)
    requires
        0 <= i < s.len(),
        s[i] == a,
    ensures
        owner_count(s, a) >= 1,
    decreases s.len(),
{
    if i < s.len() - 1 {
        lemma_owner_count_at(s.drop_last(), a, i);
    }
}

/// Reassigning one slot moves a unit of count from its old owner to its new
/// one and touches no other identity's count.
pub proof fn lemma_owner_count_update(s: Seq<AccountId>, i: int, x: AccountId, a: AccountId)
    requires
        0 <= i < s.len(),
    ensures
        owner_count(s.update(i, x), a) == owner_count(s, a) - (if s[i] == a {
            1int
        } else {
            0int
        }) + (if x == a {
            1int
        } else {
            0int
        }),
    decreases s.len(),
{
    let t = s.update(i, x);
    if i == s.len() - 1 {
        assert(t.drop_last() =~= s.drop_last());
        assert(t.last() == x);
        assert(s.last() == s[i]);
    } else {
        assert(t.drop_last() =~= s.drop_last().update(i, x));
        assert(t.last() == s.last());
        lemma_owner_count_update(s.drop_last(), i, x, a);
    }
}

/// Read a balance table: the count bound to `a`, or zero when absent.
pub fn bal_get(s: &Vec<(AccountId, u32)>, a: AccountId) -> (r: u32)
    requires
        keys_unique(s@),
    ensures
        r == bal_of(s@, a),
{
    let n = s.len();
    for i in 0..n
        invariant
            n == s@.len(),
            keys_unique(s@),
            forall|j: int| 0 <= j < i ==> (#[trigger] s@[j]).0 != a,
    {
        if s[i].0 == a {
            proof {
                lemma_val_at(s@, a, i as int);
            }
            return s[i].1;
        }
    }
    proof {
        if has_key(s@, a) {
            lemma_key_index(s@, a);
        }
    }
    0
}

/// Bind `a` to `v` in a balance table, leaving every other identity's count
/// alone.
pub fn bal_set(s: &mut Vec<(AccountId, u32)>, a: AccountId, v: u32)
    requires
        keys_unique(old(s)@),
    ensures
        keys_unique(final(s)@),
        bal_of(final(s)@, a) == v,
        forall|b: AccountId| b != a ==> #[trigger] bal_of(final(s)@, b) == bal_of(old(s)@, b),
{
    let n = s.len();
    for i in 0..n
        invariant
            n == s@.len(),
            s@ == old(s)@,
            keys_unique(s@),
            forall|j: int| 0 <= j < i ==> (#[trigger] s@[j]).0 != a,
    {
        if s[i].0 == a {
            proof {
                lemma_update_entry(s@, i as int, v);
            }
            s[i] = (a, v);
            proof {
                lemma_val_at(s@, a, i as int);
            }
            return ;
        }
    }
    proof {
        if has_key(s@, a) {
            lemma_key_index(s@, a);
        }
        lemma_push_entry(s@, a, v);
    }
    s.push((a, v));
}

/// Read an owned-token index: a fresh copy of the id list bound to `a`, or an
/// empty one when absent.
pub fn owned_get(s: &Vec<(AccountId, Vec<u32>)>, a: AccountId) -> (r: Vec<u32>)
    requires
        keys_unique(s@),
    ensures
        r@ == owned_of(s@, a),
{
    let n = s.len();
    for i in 0..n
        invariant
            n == s@.len(),
            keys_unique(s@),
            forall|j: int| 0 <= j < i ==> (#[trigger] s@[j]).0 != a,
    {
        if s[i].0 == a {
            proof {
                lemma_val_at(s@, a, i as int);
            }
            let m = s[i].1.len();
            let mut r: Vec<u32> = Vec::new();
            for j in 0..m
                invariant
                    m == s@[i as int].1@.len(),
                    i < s@.len(),
                    s@[i as int].1@ == owned_of(s@, a),
                    r@ == s@[i as int].1@.subrange(0, j as int),
            {
                r.push(s[i].1[j]);
                proof {
                    assert(r@ =~= s@[i as int].1@.subrange(0, j + 1));
                }
            }
            proof {
                assert(r@ =~= owned_of(s@, a));
            }
            return r;
        }
    }
    proof {
        if has_key(s@, a) {
            lemma_key_index(s@, a);
        }
        assert(owned_of(s@, a) =~= Seq::<u32>::empty());
    }
    Vec::new()
}

/// Bind `a` to the id list `v` in an owned-token index, leaving every other
/// identity's list alone.
pub fn owned_set(s: &mut Vec<(AccountId, Vec<u32>)>, a: AccountId, v: Vec<u32>)
    requires
        keys_unique(old(s)@),
    ensures
        keys_unique(final(s)@),
        owned_of(final(s)@, a) == v@,
        forall|b: AccountId| b != a ==> #[trigger] owned_of(final(s)@, b) == owned_of(old(s)@, b),
{
    let ghost vv = v@;
    let n = s.len();
    for i in 0..n
        invariant
            n == s@.len(),
            s@ == old(s)@,
            keys_unique(s@),
            vv == v@,
            forall|j: int| 0 <= j < i ==> (#[trigger] s@[j]).0 != a,
    {
        if s[i].0 == a {
            proof {
                lemma_update_entry(s@, i as int, v);
            }
            s[i] = (a, v);
            proof {
                lemma_val_at(s@, a, i as int);
            }
            return ;
        }
    }
    proof {
        if has_key(s@, a) {
            lemma_key_index(s@, a);
        }
        lemma_push_entry(s@, a, v);
    }
    s.push((a, v));
}

/// Delete the one occurrence of `id` from a duplicate-free id list, keeping
/// the order of the rest.
pub fn remove_id(v: &mut Vec<u32>, id: u32)
    requires
        old(v)@.no_duplicates(),
        old(v)@.contains(id),
    ensures
        final(v)@ == old(v)@.remove(old(v)@.index_of(id)),
        final(v)@.no_duplicates(),
        !final(v)@.contains(id),
        forall|t: u32| t != id ==> (final(v)@.contains(t) <==> old(v)@.contains(t)),
        final(v)@.len() == old(v)@.len() - 1,
{
    let n = v.len();
    for i in 0..n
        invariant
            n == v@.len(),
            v@ == old(v)@,
            v@.no_duplicates(),
            v@.contains(id),
            forall|j: int| 0 <= j < i ==> v@[j] != id,
    {
        if v[i] == id {
            proof {
                lemma_remove_unique(v@, i as int);
                assert(v@.index_of(id) == i as int) by {
                    assert(v@[i as int] == id);
                    let w = v@.index_of(id);
                    assert(0 <= w < v@.len() && v@[w] == id);
                    assert(w == i as int) by {
                        if w != i as int {
                            assert(v@[w] == v@[i as int]);
                        }
                    }
                }
            }
            v.remove(i);
            return ;
        }
    }
    proof {
        let w = v@.index_of(id);
        assert(0 <= w < v@.len() && v@[w] == id);
    }
}

/// Appending a value that a duplicate-free id list lacks keeps it
/// duplicate-free; membership afterwards is membership before, or equality
/// with the new value.
pub proof fn lemma_push_distinct(s: Seq<u32>, x: u32)
    requires
        s.no_duplicates(),
        !s.contains(x),
    ensures
        s.push(x).no_duplicates(),
        forall|t: u32| #[trigger] s.push(x).contains(t) <==> (s.contains(t) || t == x),
{
    let r = s.push(x);
    assert forall|p: int, q: int|
        0 <= p < r.len() && 0 <= q < r.len() && p != q implies r[p] != r[q] by {
        if p < s.len() && q < s.len() {
        } else if q == s.len() {
            assert(s[p] != x);
        } else {
            assert(s[q] != x);
        }
    }
    assert forall|t: u32| #[trigger] r.contains(t) <==> (s.contains(t) || t == x) by {
        if r.contains(t) {
            let p = choose|p: int| 0 <= p < r.len() && r[p] == t;
            if p < s.len() {
                assert(s[p] == t);
            }
        }
        if s.contains(t) {
            let p = choose|p: int| 0 <= p < s.len() && s[p] == t;
            assert(r[p] == t);
        }
        assert(r[s.len() as int] == x);
    }
}

/// Removing position `i` from a duplicate-free sequence deletes exactly that
/// element and keeps membership of every other value.
pub proof fn lemma_remove_unique(s: Seq<u32>, i: int)
    requires
        s.no_duplicates(),
        0 <= i < s.len(),
    ensures
        s.remove(i).no_duplicates(),
        !s.remove(i).contains(s[i]),
        forall|t: u32| t != s[i] ==> (s.remove(i).contains(t) <==> s.contains(t)),
        s.remove(i).len() == s.len() - 1,
{
    let r = s.remove(i);
    s.remove_ensures(i);
    assert forall|p: int, q: int|
        0 <= p < r.len() && 0 <= q < r.len() && p != q implies r[p] != r[q] by {
        let p0 = if p < i {
            p
        } else {
            p + 1
        };
        let q0 = if q < i {
            q
        } else {
            q + 1
        };
        assert(r[p] == s[p0]);
        assert(r[q] == s[q0]);
    }
    assert forall|p: int| 0 <= p < r.len() implies r[p] != s[i] by {
        let p0 = if p < i {
            p
        } else {
            p + 1
        };
        assert(r[p] == s[p0]);
    }
    assert forall|t: u32| t != s[i] implies (r.contains(t) <==> s.contains(t)) by {
        if r.contains(t) {
            let p = choose|p: int| 0 <= p < r.len() && r[p] == t;
            let p0 = if p < i {
                p
            } else {
                p + 1
            };
            assert(s[p0] == t);
        }
        if s.contains(t) {
            let p0 = choose|p0: int| 0 <= p0 < s.len() && s[p0] == t;
            let p = if p0 < i {
                p0
            } else {
                p0 - 1
            };
            assert(r[p] == t);
        }
    }
}

} // verus!
