//! Tables that hold every key once, where it is looked up.

use vstd::prelude::*;
use crate::intrinsics::hashtable::copying::alike;
use crate::intrinsics::hashtable::probing::{
    differ_only_at, holds_key, in_table, stops, visited_is_a_bucket, Buckets, KeyWords,
};
use crate::intrinsics::hashtable::rehashing::{
    came, filled, hash_agrees, homed, moved_in_order, occupied_before, paired, rehashed, same_entry,
    same_entry_same_key, words_of, KeyFns,
};
use crate::intrinsics::hashtable::resizing::{counted, entries_come_from, occupied};
use crate::intrinsics::hashtable::settling::settles;
use crate::intrinsics::hashtable::util::{STATE_EMPTY, STATE_OCCUPIED, STATE_TOMBSTONE};
use crate::intrinsics::hashtable::writing::laid_out;
use crate::semantics::Outside;

verus! {

/// `eq` is an equality, and equal keys have equal hashes.
pub open spec fn lawful(f: KeyFns) -> bool {
    &&& forall|x: int| #[trigger] (f.equal)(x, x)
    &&& forall|x: int, y: int| #[trigger] (f.equal)(x, y) ==> (f.equal)(y, x) && (f.hash)(x) == (f.hash)(y)
    &&& forall|x: int, y: int, z: int|
        #[trigger] (f.equal)(x, y) && #[trigger] (f.equal)(y, z) ==> (f.equal)(x, z)
}

/// No two buckets hold equal keys.
pub open spec fn unique(o: Outside, t: Buckets, f: KeyFns) -> bool {
    forall|i: int, j: int|
        0 <= i < t.capacity && 0 <= j < t.capacity && t.state(i) == STATE_OCCUPIED && t.state(j)
            == STATE_OCCUPIED && (f.equal)(#[trigger] t.key(o, i), #[trigger] t.key(o, j)) ==> i == j
}

/// Every occupied bucket lies on the way of its key.
pub open spec fn all_homed(o: Outside, t: Buckets, f: KeyFns) -> bool {
    forall|b: int|
        0 <= b < t.capacity && t.state(b) == STATE_OCCUPIED ==> #[trigger] homed(o, t, f, b)
}

/// A table as the methods make it: every key is there once, where it is
/// looked up.
#[verifier::opaque]
pub open spec fn proper(o: Outside, t: Buckets, f: KeyFns) -> bool {
    unique(o, t, f) && all_homed(o, t, f)
}

/// The key is in at most one bucket.
pub open spec fn only_once(o: Outside, t: Buckets, k: KeyWords) -> bool {
    forall|i: int, j: int|
        0 <= i < t.capacity && 0 <= j < t.capacity && #[trigger] holds_key(o, t, k, i)
            && #[trigger] holds_key(o, t, k, j) ==> i == j
}

/// An empty table is proper.
pub proof fn empty_is_proper(o: Outside, t: Buckets, f: KeyFns)
    requires
        forall|b: int| 0 <= b < t.capacity ==> #[trigger] t.state(b) == STATE_EMPTY,
    ensures
        proper(o, t, f),
{
    reveal(proper);
}

/// A proper table holds a key at most once.
pub proof fn proper_holds_once(o: Outside, t: Buckets, f: KeyFns, key: int)
    requires
        lawful(f),
        proper(o, t, f),
    ensures
        only_once(o, t, words_of(f, key)),
{
    reveal(proper);
    let k = words_of(f, key);
    assert forall|i: int, j: int|
        0 <= i < t.capacity && 0 <= j < t.capacity && #[trigger] holds_key(o, t, k, i)
            && #[trigger] holds_key(o, t, k, j) implies i == j by {
        let (a, b) = (t.key(o, i), t.key(o, j));
        assert((f.equal)(key, a) && (f.equal)(key, b));
        assert((f.equal)(a, key));
        assert((f.equal)(a, b));
    }
}

/// A key that is in a table is in one of its buckets.
pub proof fn held_somewhere(o: Outside, t: Buckets, k: KeyWords) -> (b: int)
    requires
        0 < t.capacity,
        in_table(o, t, k),
    ensures
        0 <= b < t.capacity,
        holds_key(o, t, k, b),
{
    let d = choose|d: nat|
        holds_key(o, t, k, #[trigger] t.visited(k.hash, d)) && forall|e: nat|
            e <= d ==> t.state(#[trigger] t.visited(k.hash, e)) != STATE_EMPTY;
    visited_is_a_bucket(t, k.hash, d);
    t.visited(k.hash, d)
}

/// A key that a bucket of a proper table holds can be looked up.
pub proof fn held_is_in_table(o: Outside, t: Buckets, f: KeyFns, key: int, b: int)
    requires
        lawful(f),
        proper(o, t, f),
        0 <= b < t.capacity,
        holds_key(o, t, words_of(f, key), b),
    ensures
        in_table(o, t, words_of(f, key)),
{
    reveal(proper);
    let k = words_of(f, key);
    assert(homed(o, t, f, b));
    let h = (f.hash)(t.key(o, b));
    assert((f.equal)(key, t.key(o, b)));
    assert(h == k.hash);
    let d = choose|d: nat| #[trigger]
        t.visited(h, d) == b && forall|e: nat|
            e <= d ==> t.state(#[trigger] t.visited(h, e)) != STATE_EMPTY;
    assert(holds_key(o, t, k, t.visited(k.hash, d)));
}

/// Tables that are alike are proper alike.
pub proof fn alike_proper(o: Outside, t: Buckets, u: Buckets, f: KeyFns)
    requires
        alike(o, t, u),
        0 < t.capacity,
        proper(o, t, f),
    ensures
        proper(o, u, f),
{
    reveal(proper);
    assert forall|i: int, j: int|
        0 <= i < u.capacity && 0 <= j < u.capacity && u.state(i) == STATE_OCCUPIED && u.state(j)
            == STATE_OCCUPIED && (f.equal)(#[trigger] u.key(o, i), #[trigger] u.key(o, j)) implies i == j by {
        assert(u.state(i) == t.state(i) && u.state(j) == t.state(j));
        assert(u.key(o, i) == t.key(o, i) && u.key(o, j) == t.key(o, j));
    }
    assert forall|b: int| 0 <= b < u.capacity && u.state(b) == STATE_OCCUPIED implies #[trigger] homed(
        o,
        u,
        f,
        b,
    ) by {
        assert(u.state(b) == t.state(b) && u.key(o, b) == t.key(o, b));
        assert(homed(o, t, f, b));
        let h = (f.hash)(t.key(o, b));
        let d = choose|d: nat| #[trigger]
            t.visited(h, d) == b && forall|e: nat|
                e <= d ==> t.state(#[trigger] t.visited(h, e)) != STATE_EMPTY;
        assert(u.visited((f.hash)(u.key(o, b)), d) == b);
        assert forall|e: nat| e <= d implies u.state(#[trigger] u.visited((f.hash)(u.key(o, b)), e))
            != STATE_EMPTY by {
            visited_is_a_bucket(t, h, e);
            assert(u.state(t.visited(h, e)) == t.state(t.visited(h, e)));
        }
    }
}

/// What a rehash makes of a proper table is proper.
pub proof fn rehash_is_proper(o: Outside, t: Buckets, u: Buckets, f: KeyFns)
    requires
        laid_out(o, t),
        laid_out(o, u),
        u.entry_size == t.entry_size,
        u.key_ty == t.key_ty,
        moved_in_order(o, t, u, f, t.capacity as int),
        proper(o, t, f),
    ensures
        proper(o, u, f),
{
    reveal(proper);
    let source = moved_pairs(o, t, u, f);
    moved_homes(o, t, u, f);
    assert forall|i: int, j: int|
        0 <= i < u.capacity && 0 <= j < u.capacity && u.state(i) == STATE_OCCUPIED && u.state(j)
            == STATE_OCCUPIED && (f.equal)(#[trigger] u.key(o, i), #[trigger] u.key(o, j)) implies i == j by {
        pairs_differ(o, t, u, f, source, i, j);
    }
}

/// The pairs of a rehash.
proof fn moved_pairs(o: Outside, t: Buckets, u: Buckets, f: KeyFns) -> (source: Map<int, int>)
    requires
        moved_in_order(o, t, u, f, t.capacity as int),
    ensures
        paired(t, u, source, t.capacity as int),
{
    reveal(moved_in_order);
    choose|source: Map<int, int>| #[trigger] paired(t, u, source, t.capacity as int)
}

/// A rehash puts every entry where its key is looked up.
proof fn moved_homes(o: Outside, t: Buckets, u: Buckets, f: KeyFns)
    requires
        moved_in_order(o, t, u, f, t.capacity as int),
    ensures
        all_homed(o, u, f),
{
    reveal(moved_in_order);
}

/// Different buckets come from different ones.
proof fn pairs_differ(
    o: Outside,
    t: Buckets,
    u: Buckets,
    f: KeyFns,
    source: Map<int, int>,
    i: int,
    j: int,
)
    requires
        laid_out(o, t),
        laid_out(o, u),
        u.entry_size == t.entry_size,
        u.key_ty == t.key_ty,
        paired(t, u, source, t.capacity as int),
        unique(o, t, f),
        0 <= i < u.capacity,
        0 <= j < u.capacity,
        u.state(i) == STATE_OCCUPIED,
        u.state(j) == STATE_OCCUPIED,
        (f.equal)(u.key(o, i), u.key(o, j)),
    ensures
        i == j,
{
    assert(filled(u).contains(i) && filled(u).contains(j));
    let (a, b) = (source[i], source[j]);
    same_entry_same_key(o, t, a, u, i);
    same_entry_same_key(o, t, b, u, j);
    assert((f.equal)(t.key(o, a), t.key(o, b)));
    assert(a == b);
}

/// A rehash makes no more entries than there were.
pub proof fn rehash_counts(o: Outside, t: Buckets, u: Buckets, f: KeyFns)
    requires
        rehashed(o, t, u, f, t.capacity as int),
    ensures
        occupied(u).finite(),
        occupied(u).len() == occupied(t).len(),
{
    reveal(moved_in_order);
    assert(occupied(t) =~= occupied_before(t, t.capacity as int));
    assert(occupied(u) =~= filled(u)) by {
        assert forall|j: int| #[trigger] occupied(u).contains(j) == filled(u).contains(j) by {
            if 0 <= j < u.capacity {
                assert(u.state(j) == STATE_EMPTY || u.state(j) == STATE_OCCUPIED);
            }
        }
    }
}

/// Filling the bucket that a probe settles at keeps a table proper.
pub proof fn filling_is_proper(
    o: Outside,
    w: Buckets,
    x: Buckets,
    f: KeyFns,
    key: int,
    stop: nat,
)
    requires
        lawful(f),
        proper(o, w, f),
        0 < w.capacity,
        settles(o, w, words_of(f, key), stop),
        ({
            let b = w.visited((f.hash)(key), stop);
            &&& !holds_key(o, w, words_of(f, key), b)
            &&& differ_only_at(o, w, x, b)
            &&& x.state(b) == STATE_OCCUPIED
            &&& x.key(o, b) == key
        }),
    ensures
        proper(o, x, f),
{
    reveal(proper);
    let k = words_of(f, key);
    let b = w.visited(k.hash, stop);
    visited_is_a_bucket(w, k.hash, stop);
    assert forall|i: int, j: int|
        0 <= i < x.capacity && 0 <= j < x.capacity && x.state(i) == STATE_OCCUPIED && x.state(j)
            == STATE_OCCUPIED && (f.equal)(#[trigger] x.key(o, i), #[trigger] x.key(o, j)) implies i == j by {
        if i != b && j != b {
            assert(x.state(i) == w.state(i) && x.state(j) == w.state(j));
            assert(x.key(o, i) == w.key(o, i) && x.key(o, j) == w.key(o, j));
        } else if i != j {
            let g = if i == b {
                j
            } else {
                i
            };
            assert((f.equal)(key, x.key(o, g)));
            assert(x.state(g) == w.state(g) && x.key(o, g) == w.key(o, g));
            held_is_in_table(o, w, f, key, g);
        }
    }
    assert forall|i: int| 0 <= i < x.capacity && x.state(i) == STATE_OCCUPIED implies #[trigger] homed(
        o,
        x,
        f,
        i,
    ) by {
        if i == b {
            assert(x.visited((f.hash)(x.key(o, b)), stop) == b);
            assert forall|e: nat| e <= stop implies x.state(#[trigger] x.visited((f.hash)(x.key(o, b)), e))
                != STATE_EMPTY by {
                visited_is_a_bucket(w, k.hash, e);
                if e < stop {
                    assert(!stops(o, w, k, true, w.visited(k.hash, e)));
                }
                if w.visited(k.hash, e) != b {
                    assert(x.state(w.visited(k.hash, e)) == w.state(w.visited(k.hash, e)));
                }
            }
        } else {
            homed_outlasts(o, w, x, f, b, i);
        }
    }
}

/// An entry stays where its key is looked up while no bucket is emptied.
proof fn homed_outlasts(o: Outside, w: Buckets, x: Buckets, f: KeyFns, b: int, i: int)
    requires
        all_homed(o, w, f),
        0 < w.capacity,
        differ_only_at(o, w, x, b),
        x.state(b) != STATE_EMPTY,
        0 <= i < x.capacity,
        i != b,
        x.state(i) == STATE_OCCUPIED,
    ensures
        homed(o, x, f, i),
{
    assert(x.state(i) == w.state(i) && x.key(o, i) == w.key(o, i));
    assert(homed(o, w, f, i));
    let h = (f.hash)(w.key(o, i));
    let d = choose|d: nat| #[trigger]
        w.visited(h, d) == i && forall|e: nat|
            e <= d ==> w.state(#[trigger] w.visited(h, e)) != STATE_EMPTY;
    assert(x.visited((f.hash)(x.key(o, i)), d) == i);
    assert forall|e: nat| e <= d implies x.state(#[trigger] x.visited((f.hash)(x.key(o, i)), e))
        != STATE_EMPTY by {
        visited_is_a_bucket(w, h, e);
        if w.visited(h, e) != b {
            assert(x.state(w.visited(h, e)) == w.state(w.visited(h, e)));
        }
    }
}

/// Marking a bucket as removed keeps a table proper.
pub proof fn removing_is_proper(o: Outside, u: Buckets, x: Buckets, f: KeyFns, b: int)
    requires
        proper(o, u, f),
        0 < u.capacity,
        differ_only_at(o, u, x, b),
        x.state(b) == STATE_TOMBSTONE,
    ensures
        proper(o, x, f),
{
    reveal(proper);
    assert forall|i: int, j: int|
        0 <= i < x.capacity && 0 <= j < x.capacity && x.state(i) == STATE_OCCUPIED && x.state(j)
            == STATE_OCCUPIED && (f.equal)(#[trigger] x.key(o, i), #[trigger] x.key(o, j)) implies i == j by {
        assert(x.state(i) == u.state(i) && x.state(j) == u.state(j));
        assert(x.key(o, i) == u.key(o, i) && x.key(o, j) == u.key(o, j));
    }
    assert forall|i: int| 0 <= i < x.capacity && x.state(i) == STATE_OCCUPIED implies #[trigger] homed(
        o,
        x,
        f,
        i,
    ) by {
        homed_outlasts(o, u, x, f, b, i);
    }
}

/// Every key of a table is a key of another.
pub open spec fn keys_come_from(o: Outside, t: Buckets, w: Buckets) -> bool {
    forall|j: int|
        0 <= j < w.capacity && #[trigger] w.state(j) == STATE_OCCUPIED ==> exists|b: int|
            0 <= b < t.capacity && #[trigger] t.state(b) == STATE_OCCUPIED && t.key(o, b) == w.key(o, j)
}

/// The keys of a table that a copy was moved into.
pub proof fn keys_reach(o: Outside, t: Buckets, u: Buckets, w: Buckets)
    requires
        laid_out(o, u),
        laid_out(o, w),
        w.entry_size == u.entry_size,
        w.key_ty == u.key_ty,
        alike(o, t, u),
        entries_come_from(u, w),
    ensures
        keys_come_from(o, t, w),
{
    assert forall|j: int| 0 <= j < w.capacity && #[trigger] w.state(j) == STATE_OCCUPIED implies exists|b: int|
        0 <= b < t.capacity && #[trigger] t.state(b) == STATE_OCCUPIED && t.key(o, b) == w.key(o, j) by {
        assert(came(u, w, u.capacity as int, j));
        let b = choose|b: int|
            0 <= b < u.capacity && u.state(b) == STATE_OCCUPIED
                && #[trigger] same_entry(u, b, w, j);
        same_entry_same_key(o, u, b, w, j);
        assert(u.state(b) == t.state(b) && u.key(o, b) == t.key(o, b));
    }
}

/// Whether a probe finds the key tells whether the first table had it.
pub proof fn found_tells(o: Outside, t: Buckets, w: Buckets, f: KeyFns, key: int, stop: nat)
    requires
        lawful(f),
        proper(o, t, f),
        0 < w.capacity,
        keys_come_from(o, t, w),
        in_table(o, t, words_of(f, key)) ==> in_table(o, w, words_of(f, key)),
        settles(o, w, words_of(f, key), stop),
    ensures
        holds_key(o, w, words_of(f, key), w.visited((f.hash)(key), stop)) == in_table(
            o,
            t,
            words_of(f, key),
        ),
{
    let k = words_of(f, key);
    let j = w.visited(k.hash, stop);
    visited_is_a_bucket(w, k.hash, stop);
    if holds_key(o, w, k, j) {
        assert(w.state(j) == STATE_OCCUPIED);
        let b = choose|b: int|
            0 <= b < t.capacity && #[trigger] t.state(b) == STATE_OCCUPIED && t.key(o, b) == w.key(o, j);
        held_is_in_table(o, t, f, key, b);
    }
}

/// A filled bucket counts.
pub proof fn filling_counts(o: Outside, w: Buckets, x: Buckets, b: int, length: int)
    requires
        counted(w, length),
        0 <= b < w.capacity,
        differ_only_at(o, w, x, b),
    ensures
        counted(x, length + 1),
{
    assert(occupied(x).subset_of(occupied(w).insert(b))) by {
        assert forall|i: int| #[trigger] occupied(x).contains(i) implies occupied(w).insert(b).contains(
            i,
        ) by {
            if i != b {
                assert(x.state(i) == w.state(i));
            }
        }
    }
    vstd::set_lib::lemma_len_subset(occupied(x), occupied(w).insert(b));
}

/// A removed bucket no longer counts.
pub proof fn removing_counts(o: Outside, u: Buckets, x: Buckets, b: int, length: int)
    requires
        counted(u, length),
        0 <= b < u.capacity,
        u.state(b) == STATE_OCCUPIED,
        x.state(b) != STATE_OCCUPIED,
        differ_only_at(o, u, x, b),
    ensures
        counted(x, length - 1),
{
    assert(occupied(u).contains(b));
    assert(occupied(x) =~= occupied(u).remove(b)) by {
        assert forall|i: int| #[trigger] occupied(x).contains(i) == occupied(u).remove(b).contains(i) by {
            if 0 <= i < u.capacity && i != b {
                assert(x.state(i) == u.state(i));
            }
        }
    }
}

/// Hashes agree under a lawful equality.
pub proof fn lawful_agrees(f: KeyFns, key: int)
    requires
        lawful(f),
    ensures
        hash_agrees(f, key),
{
    assert forall|other: int| #[trigger] (f.equal)(key, other) implies (f.hash)(other) == (f.hash)(key) by {}
}

} // verus!
