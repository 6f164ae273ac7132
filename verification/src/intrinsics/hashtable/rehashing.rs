//! What moving the entries of a table into a larger one does, for entries
//! that own no heap.

use vstd::prelude::*;
use vstd::set_lib::{lemma_int_range, lemma_len_subset, set_int_range};
use crate::intrinsics::hashtable::copying::spares_but;
use crate::intrinsics::hashtable::probing::{
    first_stop, holds_key, in_table, mask_is_remainder, power_of_two, probes_visit_every_bucket, stops,
    Buckets, KeyWords,
};
use crate::intrinsics::hashtable::resize::rehash_code;
use crate::intrinsics::hashtable::util::{
    HashtableLayout, KeyHashOps, TableSnapshot, STATE_EMPTY, STATE_OCCUPIED,
};
use crate::intrinsics::hashtable::writing::{entry_address, laid_out, of_bucket, stored_elsewhere};
use crate::llvm::{
    a1, a3, call, call_fn, gep, iadd, iand, imul, isub, itest, itest8, num, BinOp, Callee, Code, Entry,
    Inst, LType, Pred, Val,
};
use crate::memory::{
    address_in_range, byte, copies, heap_calls, memcpy_call, number, number_of_bytes, stored,
    Memory,
};
use crate::runtime::Rt;
use crate::semantics::{
    arguments, arrives, beginning_stands, begins_as, bit, branches, byte_count, calls, combines,
    incoming, incoming_finds, jumps, loads, moves, multiplies, read, seek, seek_finds, stores,
    takes, tests, tidy, Machine, Outside,
};

verus! {

/// What `hash` and `eq` of a key type compute.
pub struct KeyFns {
    pub hash: spec_fn(int) -> u64,
    pub equal: spec_fn(int, int) -> bool,
}

/// `hash` and `eq` compute these functions and change nothing, in every
/// memory that keeps what was taken, but for a counter.
pub open spec fn key_fns(o: Outside, ops: KeyHashOps, base: Memory, counter: int, f: KeyFns) -> bool {
    &&& forall|args: Seq<int>, memory: Memory|
        args.len() == 1 && spares_but(base, memory, counter) ==> #[trigger] (o.calls)(
            Callee::Function(ops.hash_fn),
            args,
            memory,
        ) == ((f.hash)(args[0]) as int, memory)
    &&& forall|args: Seq<int>, memory: Memory|
        args.len() == 2 && spares_but(base, memory, counter) ==> #[trigger] (o.calls)(
            Callee::Function(ops.eq_fn),
            args,
            memory,
        ) == (bit((f.equal)(args[0], args[1])) as int, memory)
}

/// A key with what `hash` and `eq` say of it.
pub open spec fn words_of(f: KeyFns, key: int) -> KeyWords {
    KeyWords { key: key, hash: (f.hash)(key), equal: |other: int| (f.equal)(key, other) }
}

/// Equal keys have equal hashes.
pub open spec fn hash_agrees(f: KeyFns, key: int) -> bool {
    forall|other: int| #[trigger] (f.equal)(key, other) ==> (f.hash)(other) == (f.hash)(key)
}

/// Bucket `j` of a table has the entry of bucket `b` of another.
pub open spec fn same_entry(t: Buckets, b: int, u: Buckets, j: int) -> bool {
    forall|x: int|
        0 <= x < t.entry_size ==> #[trigger] byte(u.memory, u.entries + j * u.entry_size + x) == byte(
            t.memory,
            t.entries + b * t.entry_size + x,
        )
}

/// An occupied bucket lies on the way of its key, before any empty one.
pub open spec fn homed(o: Outside, u: Buckets, f: KeyFns, j: int) -> bool {
    &&& u.state(j) == STATE_OCCUPIED
    &&& exists|d: nat| #[trigger]
        u.visited((f.hash)(u.key(o, j)), d) == j && forall|e: nat|
            e <= d ==> u.state(#[trigger] u.visited((f.hash)(u.key(o, j)), e)) != STATE_EMPTY
}

/// Bucket `b` has been moved to some bucket of the new table.
pub open spec fn moved(o: Outside, t: Buckets, u: Buckets, f: KeyFns, b: int) -> bool {
    exists|j: int|
        0 <= j < u.capacity && #[trigger] same_entry(t, b, u, j) && homed(o, u, f, j)
}

/// Bucket `j` of the new table has come from one of the first `i`.
pub open spec fn came(t: Buckets, u: Buckets, i: int, j: int) -> bool {
    exists|b: int|
        0 <= b < i && t.state(b) == STATE_OCCUPIED && #[trigger] same_entry(t, b, u, j)
}

/// The buckets of a table that are not empty.
pub open spec fn filled(u: Buckets) -> Set<int> {
    Set::new(|j: int| 0 <= j < u.capacity && u.state(j) != STATE_EMPTY)
}

/// The entries of the first `i` buckets and those of the new table belong
/// together one to one.
pub open spec fn paired(t: Buckets, u: Buckets, source: Map<int, int>, i: int) -> bool {
    &&& source.dom() == filled(u)
    &&& forall|j: int| #[trigger]
        filled(u).contains(j) ==> 0 <= source[j] < i && t.state(source[j]) == STATE_OCCUPIED
            && same_entry(t, source[j], u, j)
    &&& forall|j: int, k: int|
        filled(u).contains(j) && filled(u).contains(k) && #[trigger] source[j] == #[trigger] source[k]
            ==> j == k
    &&& forall|b: int|
        0 <= b < i && #[trigger] t.state(b) == STATE_OCCUPIED ==> exists|j: int| #[trigger]
            filled(u).contains(j) && source[j] == b
}

/// Every one of the first `i` entries has been moved to exactly one bucket.
pub open spec fn moved_once(t: Buckets, u: Buckets, i: int) -> bool {
    exists|source: Map<int, int>| #[trigger] paired(t, u, source, i)
}

/// The occupied ones of the first `i` buckets.
pub open spec fn occupied_before(t: Buckets, i: int) -> Set<int> {
    Set::new(|b: int| 0 <= b < i && t.state(b) == STATE_OCCUPIED)
}

/// The first `i` buckets have been moved.
pub open spec fn rehashed(o: Outside, t: Buckets, u: Buckets, f: KeyFns, i: int) -> bool {
    &&& u.entry_size == t.entry_size
    &&& u.key_ty == t.key_ty
    &&& forall|b: int|
        0 <= b < i && t.state(b) == STATE_OCCUPIED ==> #[trigger] moved(o, t, u, f, b)
    &&& forall|j: int|
        0 <= j < u.capacity ==> #[trigger] u.state(j) == STATE_EMPTY || (u.state(j)
            == STATE_OCCUPIED && came(t, u, i, j))
    &&& filled(u).finite()
    &&& filled(u).len() <= i
    &&& moved_in_order(o, t, u, f, i)
}

/// The first `i` buckets have been moved one to one, each to where its key
/// is looked up.
#[verifier::opaque]
pub open spec fn moved_in_order(o: Outside, t: Buckets, u: Buckets, f: KeyFns, i: int) -> bool {
    &&& occupied_before(t, i).finite()
    &&& filled(u).len() == occupied_before(t, i).len()
    &&& moved_once(t, u, i)
    &&& forall|j: int| 0 <= j < u.capacity && u.state(j) != STATE_EMPTY ==> #[trigger] homed(o, u, f, j)
}

/// A moved entry has the same key.
pub proof fn same_entry_same_key(o: Outside, t: Buckets, b: int, u: Buckets, j: int)
    requires
        laid_out(o, t),
        laid_out(o, u),
        u.entry_size == t.entry_size,
        u.key_ty == t.key_ty,
        0 <= b < t.capacity,
        0 <= j < u.capacity,
        same_entry(t, b, u, j),
    ensures
        u.key(o, j) == t.key(o, b),
{
    entry_address(t, b);
    entry_address(u, j);
    number_of_bytes(
        u.memory,
        u.entries + j * u.entry_size,
        t.memory,
        t.entries + b * t.entry_size,
        byte_count(o, t.key_ty),
    );
}

/// A key that could be looked up in the old table can be looked up in the
/// new one.
pub proof fn rehash_keeps_keys(o: Outside, t: Buckets, u: Buckets, f: KeyFns, key: int)
    requires
        laid_out(o, t),
        laid_out(o, u),
        t.capacity > 0,
        u.capacity > 0,
        rehashed(o, t, u, f, t.capacity as int),
        hash_agrees(f, key),
        in_table(o, t, words_of(f, key)),
    ensures
        in_table(o, u, words_of(f, key)),
{
    let k = words_of(f, key);
    let d = choose|d: nat|
        holds_key(o, t, k, #[trigger] t.visited(k.hash, d)) && forall|e: nat|
            e <= d ==> t.state(#[trigger] t.visited(k.hash, e)) != STATE_EMPTY;
    let b = t.visited(k.hash, d);
    vstd::arithmetic::div_mod::lemma_mod_bound(k.hash + d, t.capacity as int);
    assert(moved(o, t, u, f, b));
    let j = choose|j: int|
        0 <= j < u.capacity && #[trigger] same_entry(t, b, u, j) && homed(o, u, f, j);
    same_entry_same_key(o, t, b, u, j);
    let h = (f.hash)(u.key(o, j));
    assert((f.equal)(key, t.key(o, b)));
    assert(h == k.hash);
    let e = choose|e: nat| #[trigger]
        u.visited(h, e) == j && forall|g: nat|
            g <= e ==> u.state(#[trigger] u.visited(h, g)) != STATE_EMPTY;
    assert(holds_key(o, u, k, u.visited(k.hash, e)));
}

/// A table of which fewer buckets are filled than it has, has an empty
/// one.
pub proof fn some_bucket_is_empty(u: Buckets) -> (j: int)
    requires
        filled(u).finite(),
        filled(u).len() < u.capacity,
    ensures
        0 <= j < u.capacity,
        u.state(j) == STATE_EMPTY,
{
    if forall|j: int| 0 <= j < u.capacity ==> u.state(j) != STATE_EMPTY {
        let all = set_int_range(0, u.capacity as int);
        lemma_int_range(0, u.capacity as int);
        assert(all.subset_of(filled(u)));
        lemma_len_subset(all, filled(u));
    }
    choose|j: int| 0 <= j < u.capacity && u.state(j) == STATE_EMPTY
}

/// A new table is empty, and nothing has been moved yet.
pub proof fn nothing_moved(o: Outside, t: Buckets, u: Buckets, f: KeyFns)
    requires
        u.entry_size == t.entry_size,
        u.key_ty == t.key_ty,
        forall|j: int| 0 <= j < u.capacity ==> #[trigger] u.state(j) == STATE_EMPTY,
    ensures
        rehashed(o, t, u, f, 0),
{
    reveal(moved_in_order);
    assert(filled(u) =~= Set::empty());
    assert(occupied_before(t, 0) =~= Set::empty());
    assert(Map::<int, int>::empty().dom() =~= filled(u));
    assert(paired(t, u, Map::empty(), 0));
}

/// Going past a bucket that is not occupied.
pub proof fn skipping_moves_nothing(o: Outside, t: Buckets, u: Buckets, f: KeyFns, i: int)
    requires
        rehashed(o, t, u, f, i),
        t.state(i) != STATE_OCCUPIED,
        i >= 0,
    ensures
        rehashed(o, t, u, f, i + 1),
{
    assert forall|j: int| 0 <= j < u.capacity implies #[trigger] u.state(j) == STATE_EMPTY || (
    u.state(j) == STATE_OCCUPIED && came(t, u, i + 1, j)) by {
        if u.state(j) != STATE_EMPTY {
            assert(came(t, u, i, j));
            let b = choose|b: int|
                0 <= b < i && t.state(b) == STATE_OCCUPIED && #[trigger] same_entry(t, b, u, j);
            assert(same_entry(t, b, u, j));
        }
    }
    reveal(moved_in_order);
    assert(occupied_before(t, i + 1) =~= occupied_before(t, i));
    let source = choose|source: Map<int, int>| #[trigger] paired(t, u, source, i);
    assert forall|b: int| 0 <= b < i + 1 && #[trigger] t.state(b) == STATE_OCCUPIED implies exists|j: int| #[trigger]
        filled(u).contains(j) && source[j] == b by {
        assert(b < i);
    }
    assert(paired(t, u, source, i + 1));
}

/// Entries of other buckets stay what they are.
proof fn other_entry_stays(o: Outside, t: Buckets, b: int, u: Buckets, w: Buckets, at: int, j: int)
    requires
        laid_out(o, u),
        w == (Buckets { memory: w.memory, ..u }),
        0 <= at < u.capacity,
        0 <= j < u.capacity,
        at != j,
        t.entry_size == u.entry_size,
        forall|q: int|
            0 <= q <= u64::MAX && !of_bucket(u, at, q) ==> #[trigger] byte(w.memory, q) == byte(
                u.memory,
                q,
            ),
    ensures
        w.state(j) == u.state(j),
        w.key(o, j) == u.key(o, j),
        same_entry(t, b, u, j) == same_entry(t, b, w, j),
{
    entry_address(u, at);
    entry_address(u, j);
    entry_address(w, j);
    assert((j + 1) * u.entry_size <= at * u.entry_size || (at + 1) * u.entry_size <= j
        * u.entry_size) by (nonlinear_arith)
        requires
            j != at,
            0 <= u.entry_size,
    ;
    assert(!of_bucket(u, at, u.states + j));
    let p = u.entries + j * u.entry_size;
    assert forall|x: int| 0 <= x < u.entry_size implies #[trigger] byte(w.memory, p + x) == byte(
        u.memory,
        p + x,
    ) by {
        assert(!of_bucket(u, at, p + x));
    }
    number_of_bytes(w.memory, p, u.memory, p, byte_count(o, u.key_ty));
    if same_entry(t, b, u, j) {
        assert(same_entry(t, b, w, j)) by {
            assert forall|x: int| 0 <= x < t.entry_size implies #[trigger] byte(
                w.memory,
                w.entries + j * w.entry_size + x,
            ) == byte(t.memory, t.entries + b * t.entry_size + x) by {
                assert(byte(u.memory, u.entries + j * u.entry_size + x) == byte(
                    t.memory,
                    t.entries + b * t.entry_size + x,
                ));
                assert(byte(w.memory, p + x) == byte(u.memory, p + x));
            }
        }
    }
    if same_entry(t, b, w, j) {
        assert(same_entry(t, b, u, j)) by {
            assert forall|x: int| 0 <= x < t.entry_size implies #[trigger] byte(
                u.memory,
                u.entries + j * u.entry_size + x,
            ) == byte(t.memory, t.entries + b * t.entry_size + x) by {
                assert(byte(w.memory, w.entries + j * w.entry_size + x) == byte(
                    t.memory,
                    t.entries + b * t.entry_size + x,
                ));
                assert(byte(w.memory, p + x) == byte(u.memory, p + x));
            }
        }
    }
}

/// A bucket of a table that a probe visits.
proof fn visited_in_range(u: Buckets, hash: u64, d: nat)
    requires
        u.capacity > 0,
    ensures
        0 <= u.visited(hash, d) < u.capacity,
{
    vstd::arithmetic::div_mod::lemma_mod_bound(hash + d, u.capacity as int);
}

/// The new table differs only at bucket `at`, which was empty and is
/// occupied now.
pub open spec fn one_more(u: Buckets, w: Buckets, at: int) -> bool {
    &&& w == (Buckets { memory: w.memory, ..u })
    &&& 0 <= at < u.capacity
    &&& u.state(at) == STATE_EMPTY
    &&& w.state(at) == STATE_OCCUPIED
    &&& forall|q: int|
        0 <= q <= u64::MAX && !of_bucket(u, at, q) ==> #[trigger] byte(w.memory, q) == byte(
            u.memory,
            q,
        )
}

/// What has been moved stays moved.
proof fn moved_stays(o: Outside, t: Buckets, u: Buckets, w: Buckets, f: KeyFns, at: int, b: int)
    requires
        laid_out(o, u),
        t.entry_size == u.entry_size,
        one_more(u, w, at),
        moved(o, t, u, f, b),
    ensures
        moved(o, t, w, f, b),
{
    let j = choose|j: int|
        0 <= j < u.capacity && #[trigger] same_entry(t, b, u, j) && homed(o, u, f, j);
    other_entry_stays(o, t, b, u, w, at, j);
    let h = (f.hash)(u.key(o, j));
    let d = choose|d: nat| #[trigger]
        u.visited(h, d) == j && forall|e: nat|
            e <= d ==> u.state(#[trigger] u.visited(h, e)) != STATE_EMPTY;
    assert(w.visited((f.hash)(w.key(o, j)), d) == j);
    assert forall|e: nat| e <= d implies w.state(#[trigger] w.visited((f.hash)(w.key(o, j)), e))
        != STATE_EMPTY by {
        let i = u.visited(h, e);
        visited_in_range(u, h, e);
        if i != at {
            other_entry_stays(o, t, b, u, w, at, i);
        }
    }
    assert(homed(o, w, f, j));
}

/// Moving one more entry.
pub proof fn moving_moves(
    o: Outside,
    t: Buckets,
    u: Buckets,
    w: Buckets,
    f: KeyFns,
    i: int,
    stop: nat,
    at: int,
)
    requires
        laid_out(o, t),
        laid_out(o, u),
        rehashed(o, t, u, f, i),
        0 <= i < t.capacity,
        t.state(i) == STATE_OCCUPIED,
        one_more(u, w, at),
        u.visited((f.hash)(t.key(o, i)), stop) == at,
        forall|e: nat|
            e < stop ==> u.state(#[trigger] u.visited((f.hash)(t.key(o, i)), e)) != STATE_EMPTY,
        same_entry(t, i, w, at),
    ensures
        rehashed(o, t, w, f, i + 1),
{
    assert forall|b: int| 0 <= b < i + 1 && t.state(b) == STATE_OCCUPIED implies #[trigger] moved(
        o,
        t,
        w,
        f,
        b,
    ) by {
        if b < i {
            assert(moved(o, t, u, f, b));
            moved_stays(o, t, u, w, f, at, b);
        } else {
            same_entry_same_key(o, t, i, w, at);
            let h = (f.hash)(t.key(o, i));
            assert(w.visited((f.hash)(w.key(o, at)), stop) == at);
            assert forall|e: nat| e <= stop implies w.state(
                #[trigger] w.visited((f.hash)(w.key(o, at)), e),
            ) != STATE_EMPTY by {
                let g = u.visited(h, e);
                visited_in_range(u, h, e);
                if g != at {
                    other_entry_stays(o, t, b, u, w, at, g);
                    assert(e < stop);
                }
            }
            assert(homed(o, w, f, at));
            assert(same_entry(t, b, w, at));
        }
    }
    assert forall|j: int| 0 <= j < w.capacity implies #[trigger] w.state(j) == STATE_EMPTY || (
    w.state(j) == STATE_OCCUPIED && came(t, w, i + 1, j)) by {
        if j == at {
            assert(same_entry(t, i, w, j));
        } else {
            other_entry_stays(o, t, 0, u, w, at, j);
            if u.state(j) != STATE_EMPTY {
                assert(came(t, u, i, j));
                let b = choose|b: int|
                    0 <= b < i && t.state(b) == STATE_OCCUPIED && #[trigger] same_entry(t, b, u, j);
                other_entry_stays(o, t, b, u, w, at, j);
                assert(same_entry(t, b, w, j));
            }
        }
    }
    reveal(moved_in_order);
    homed_stay(o, t, u, w, f, i, at);
    assert(filled(w) =~= filled(u).insert(at)) by {
        assert forall|j: int| #[trigger] filled(w).contains(j) == filled(u).insert(at).contains(
            j,
        ) by {
            if 0 <= j < u.capacity && j != at {
                other_entry_stays(o, t, 0, u, w, at, j);
            }
        }
    }
    assert(!filled(u).contains(at));
    assert(occupied_before(t, i + 1) =~= occupied_before(t, i).insert(i));
    pairing_moves(o, t, u, w, i, at);
    assert(homed(o, w, f, at)) by {
        assert(moved(o, t, w, f, i));
        same_entry_same_key(o, t, i, w, at);
        let h = (f.hash)(t.key(o, i));
        assert(w.visited((f.hash)(w.key(o, at)), stop) == at);
        assert forall|e: nat| e <= stop implies w.state(#[trigger] w.visited((f.hash)(w.key(o, at)), e))
            != STATE_EMPTY by {
            let g = u.visited(h, e);
            visited_in_range(u, h, e);
            if g != at {
                other_entry_stays(o, t, i, u, w, at, g);
            }
        }
    }
    assert forall|j: int| 0 <= j < w.capacity && w.state(j) != STATE_EMPTY implies #[trigger] homed(o, w, f, j) by {
        if j != at {
            assert(filled(w).contains(j));
        }
    }
}

/// Entries that are where their keys are looked up stay so.
proof fn homed_stay(o: Outside, t: Buckets, u: Buckets, w: Buckets, f: KeyFns, i: int, at: int)
    requires
        laid_out(o, u),
        rehashed(o, t, u, f, i),
        one_more(u, w, at),
    ensures
        forall|j: int|
            0 <= j < w.capacity && j != at && w.state(j) != STATE_EMPTY ==> #[trigger] homed(o, w, f, j),
{
    reveal(moved_in_order);
    assert forall|j: int| 0 <= j < w.capacity && j != at && w.state(j) != STATE_EMPTY implies #[trigger] homed(
        o,
        w,
        f,
        j,
    ) by {
        other_entry_stays(o, t, 0, u, w, at, j);
        assert(homed(o, u, f, j));
        let h = (f.hash)(u.key(o, j));
        let d = choose|d: nat| #[trigger]
            u.visited(h, d) == j && forall|e: nat|
                e <= d ==> u.state(#[trigger] u.visited(h, e)) != STATE_EMPTY;
        assert(w.visited((f.hash)(w.key(o, j)), d) == j);
        assert forall|e: nat| e <= d implies w.state(#[trigger] w.visited((f.hash)(w.key(o, j)), e))
            != STATE_EMPTY by {
            let g = u.visited(h, e);
            visited_in_range(u, h, e);
            if g != at {
                other_entry_stays(o, t, 0, u, w, at, g);
            }
        }
    }
}

/// One more entry is paired with where it went.
proof fn pairing_moves(o: Outside, t: Buckets, u: Buckets, w: Buckets, i: int, at: int)
    requires
        laid_out(o, u),
        t.entry_size == u.entry_size,
        moved_once(t, u, i),
        0 <= i,
        t.state(i) == STATE_OCCUPIED,
        one_more(u, w, at),
        same_entry(t, i, w, at),
        filled(w) == filled(u).insert(at),
        !filled(u).contains(at),
    ensures
        moved_once(t, w, i + 1),
{
    let source = choose|source: Map<int, int>| #[trigger] paired(t, u, source, i);
    let next = source.insert(at, i);
    assert(next.dom() =~= filled(w));
    assert forall|j: int| #[trigger] filled(w).contains(j) implies 0 <= next[j] < i + 1 && t.state(next[j])
        == STATE_OCCUPIED && same_entry(t, next[j], w, j) by {
        if j != at {
            assert(filled(u).contains(j));
            other_entry_stays(o, t, source[j], u, w, at, j);
        }
    }
    assert forall|j: int, k: int|
        filled(w).contains(j) && filled(w).contains(k) && #[trigger] next[j] == #[trigger] next[k] implies j
        == k by {
        if j != at {
            assert(filled(u).contains(j));
        }
        if k != at {
            assert(filled(u).contains(k));
        }
        if j != at && k != at {
            assert(source[j] == source[k]);
        }
    }
    assert forall|b: int| 0 <= b < i + 1 && #[trigger] t.state(b) == STATE_OCCUPIED implies exists|j: int| #[trigger]
        filled(w).contains(j) && next[j] == b by {
        if b == i {
            assert(filled(w).contains(at) && next[at] == b);
        } else {
            let j = choose|j: int| #[trigger] filled(u).contains(j) && source[j] == b;
            assert(filled(w).contains(j) && next[j] == b);
        }
    }
    assert(paired(t, w, next, i + 1));
}

/// The rehash loop inside a body: the place of its first instruction and
/// block, the block that it is entered from, and the two tables.
pub struct Rehash {
    pub n: nat,
    pub block: nat,
    pub from: usize,
    pub entry_size: u64,
    pub old_table: TableSnapshot,
    pub new_table: TableSnapshot,
    pub ops: KeyHashOps,
}

impl Rehash {
    /// The result of the `k`-th instruction.
    pub open spec fn v(self, k: int) -> Val {
        Val::At((self.n + k) as usize)
    }

    /// The `k`-th block.
    pub open spec fn b(self, k: int) -> usize {
        (self.block + k) as usize
    }

    /// The body holds the loop, instruction by instruction.
    pub open spec fn stands_in(self, code: Code) -> bool {
        let is = |k: int, block: usize, inst: Inst|
            code.log[self.n + k] == Entry { block: block, inst: inst };
        let (x, y) = (self.old_table, self.new_table);
        &&& self.n + 30 <= code.log.len() <= usize::MAX
        &&& is(0, self.from, Inst::Br(self.b(0)))
        &&& is(1, self.b(0), Inst::Phi(LType::I64))
        &&& is(2, self.b(0), itest(Pred::Uge, self.v(1), x.capacity))
        &&& is(3, self.b(0), Inst::CondBr(self.v(2), self.b(7), self.b(1)))
        &&& is(4, self.b(1), gep(x.states_ptr, self.v(1)))
        &&& is(5, self.b(1), Inst::Load(LType::I8, self.v(4)))
        &&& is(6, self.b(1), itest8(Pred::Eq, self.v(5), num(STATE_OCCUPIED)))
        &&& is(7, self.b(1), Inst::CondBr(self.v(6), self.b(2), self.b(6)))
        &&& is(8, self.b(2), imul(self.v(1), num(self.entry_size)))
        &&& is(9, self.b(2), gep(x.entries_ptr, self.v(8)))
        &&& is(10, self.b(2), Inst::Load(self.ops.key_basic_ty, self.v(9)))
        &&& is(11, self.b(2), call_fn(self.ops.hash_fn, a1(self.v(10))))
        &&& is(12, self.b(2), isub(y.capacity, num(1)))
        &&& is(13, self.b(2), iand(self.v(11), self.v(12)))
        &&& is(14, self.b(2), Inst::Br(self.b(3)))
        &&& is(15, self.b(3), Inst::Phi(LType::I64))
        &&& is(16, self.b(3), gep(y.states_ptr, self.v(15)))
        &&& is(17, self.b(3), Inst::Load(LType::I8, self.v(16)))
        &&& is(18, self.b(3), itest8(Pred::Eq, self.v(17), num(STATE_EMPTY)))
        &&& is(19, self.b(3), Inst::CondBr(self.v(18), self.b(5), self.b(4)))
        &&& is(20, self.b(4), iadd(self.v(15), num(1)))
        &&& is(21, self.b(4), iand(self.v(20), self.v(12)))
        &&& is(22, self.b(4), Inst::Br(self.b(3)))
        &&& is(23, self.b(5), imul(self.v(15), num(self.entry_size)))
        &&& is(24, self.b(5), gep(y.entries_ptr, self.v(23)))
        &&& is(
            25,
            self.b(5),
            call(Rt::Memcpy, a3(self.v(24), self.v(9), num(self.entry_size))),
        )
        &&& is(26, self.b(5), Inst::Store(LType::I8, num(STATE_OCCUPIED), self.v(16)))
        &&& is(27, self.b(5), Inst::Br(self.b(6)))
        &&& is(28, self.b(6), iadd(self.v(1), num(1)))
        &&& is(29, self.b(6), Inst::Br(self.b(0)))
        &&& incoming(code.edges, self.v(1), self.from) == Some(num(0))
        &&& incoming(code.edges, self.v(1), self.b(6)) == Some(self.v(28))
        &&& incoming(code.edges, self.v(15), self.b(2)) == Some(self.v(13))
        &&& incoming(code.edges, self.v(15), self.b(4)) == Some(self.v(21))
        &&& seek(code.log, self.b(0), 0) == self.n + 1
        &&& seek(code.log, self.b(1), 0) == self.n + 4
        &&& seek(code.log, self.b(2), 0) == self.n + 8
        &&& seek(code.log, self.b(3), 0) == self.n + 15
        &&& seek(code.log, self.b(4), 0) == self.n + 20
        &&& seek(code.log, self.b(5), 0) == self.n + 23
        &&& seek(code.log, self.b(6), 0) == self.n + 28
    }

    /// An operand is known before the loop.
    pub open spec fn known(self, v: Val) -> bool {
        v matches Val::At(k) ==> k < self.n
    }

    /// The operands of the loop are the two tables.
    pub open spec fn works_on(self, o: Outside, m: Machine, t: Buckets, u: Buckets) -> bool {
        let (x, y) = (self.old_table, self.new_table);
        &&& self.known(x.entries_ptr) && read(o, m.results, x.entries_ptr) == t.entries
        &&& self.known(x.states_ptr) && read(o, m.results, x.states_ptr) == t.states
        &&& self.known(x.capacity) && read(o, m.results, x.capacity) == t.capacity
        &&& self.known(y.entries_ptr) && read(o, m.results, y.entries_ptr) == u.entries
        &&& self.known(y.states_ptr) && read(o, m.results, y.states_ptr) == u.states
        &&& self.known(y.capacity) && read(o, m.results, y.capacity) == u.capacity
        &&& self.entry_size == t.entry_size
        &&& self.entry_size == u.entry_size
        &&& self.ops.key_basic_ty == t.key_ty
        &&& u.key_ty == t.key_ty
    }
}

/// A byte belongs to a table.
pub open spec fn of_table(u: Buckets, q: int) -> bool {
    ||| u.entries <= q < u.entries + u.capacity * u.entry_size
    ||| u.states <= q < u.states + u.capacity
}

/// Two memories that differ at most within a table.
pub open spec fn differ_in_table(u: Buckets, before: Memory, after: Memory) -> bool {
    &&& after.taken == before.taken
    &&& after.blocks == before.blocks
    &&& forall|q: int|
        0 <= q <= u64::MAX && !of_table(u, q) ==> #[trigger] byte(after, q) == byte(before, q)
}

/// Two tables of which the second is larger and shares nothing with the
/// first, nor with anything taken in `base`.
pub open spec fn set_apart(o: Outside, t: Buckets, u: Buckets, base: Memory) -> bool {
    &&& laid_out(o, t)
    &&& laid_out(o, u)
    &&& power_of_two(u.capacity)
    &&& 0 < t.capacity < u.capacity
    &&& forall|q: int| #[trigger] of_table(t, q) ==> !of_table(u, q)
    &&& forall|q: int| #[trigger] base.taken.contains(q) ==> !of_table(u, q) && 0 <= q <= u64::MAX
}

/// The state of the loop: `i` buckets have been moved into the new table
/// in the present memory.
spec fn moving(
    o: Outside,
    r: Rehash,
    l: Machine,
    m: Machine,
    t: Buckets,
    u: Buckets,
    f: KeyFns,
    i: int,
) -> bool {
    &&& l.returned is None
    &&& forall|k: usize| k < r.n ==> #[trigger] l.results[k] == m.results[k]
    &&& differ_in_table(u, t.memory, l.memory)
    &&& rehashed(o, t, Buckets { memory: l.memory, ..u }, f, i)
    &&& l.results[(r.n + 1) as usize] == i
    &&& 0 <= i <= t.capacity
}

/// Every entry has been moved.
pub open spec fn all_moved(
    code: Code,
    o: Outside,
    r: Rehash,
    m: Machine,
    t: Buckets,
    u: Buckets,
    f: KeyFns,
) -> spec_fn(Machine) -> bool {
    |l: Machine|
        {
            &&& l.at == seek(code.log, r.b(7), 0)
            &&& l.returned is None
            &&& l.from == r.b(0)
            &&& forall|k: usize| k < r.n ==> #[trigger] l.results[k] == m.results[k]
            &&& differ_in_table(u, t.memory, l.memory)
            &&& rehashed(o, t, Buckets { memory: l.memory, ..u }, f, t.capacity as int)
        }
}

/// What holds all through a rehash.
pub open spec fn rehash_setting(
    code: Code,
    o: Outside,
    r: Rehash,
    m: Machine,
    t: Buckets,
    u: Buckets,
    f: KeyFns,
    base: Memory,
    counter: int,
) -> bool {
    &&& r.stands_in(code)
    &&& r.works_on(o, m, t, u)
    &&& set_apart(o, t, u, base)
    &&& key_fns(o, r.ops, base, counter, f)
    &&& spares_but(base, t.memory, counter)
    &&& heap_calls(o)
}

/// The old table is what it was.
proof fn old_table_stays(o: Outside, t: Buckets, u: Buckets, base: Memory, now: Memory, i: int)
    requires
        set_apart(o, t, u, base),
        differ_in_table(u, t.memory, now),
        0 <= i < t.capacity,
    ensures
        byte(now, t.states + i) == t.state(i),
        number(now, t.entry(i) as int, byte_count(o, t.key_ty)) == t.key(o, i),
        t.entry(i) == t.entries + i * t.entry_size,
        forall|x: int|
            0 <= x < t.entry_size ==> #[trigger] byte(now, t.entries + i * t.entry_size + x) == byte(
                t.memory,
                t.entries + i * t.entry_size + x,
            ),
{
    entry_address(t, i);
    assert(of_table(t, t.states + i));
    let p = t.entries + i * t.entry_size;
    assert forall|x: int| 0 <= x < t.entry_size implies #[trigger] byte(now, p + x) == byte(
        t.memory,
        p + x,
    ) by {
        assert(of_table(t, p + x));
    }
    number_of_bytes(now, p, t.memory, p, byte_count(o, t.key_ty));
}

/// What was taken at first is what it was.
proof fn base_stays(o: Outside, t: Buckets, u: Buckets, base: Memory, counter: int, now: Memory)
    requires
        set_apart(o, t, u, base),
        spares_but(base, t.memory, counter),
        differ_in_table(u, t.memory, now),
    ensures
        spares_but(base, now, counter),
{
    assert forall|q: int| #[trigger] base.taken.contains(q) implies now.taken.contains(q) && (counter
        <= q < counter + 8 || byte(now, q) == byte(base, q)) by {
        assert(t.memory.taken.contains(q));
        assert(byte(now, q) == byte(t.memory, q));
    }
}

/// The loop at its test.
proof fn rehash_round(
    code: Code,
    o: Outside,
    r: Rehash,
    l: Machine,
    m: Machine,
    t: Buckets,
    u: Buckets,
    f: KeyFns,
    base: Memory,
    counter: int,
    i: int,
)
    requires
        rehash_setting(code, o, r, m, t, u, f, base, counter),
        moving(o, r, l, m, t, u, f, i),
        l.at == r.n + 2,
        code.log[l.at as int].block == r.b(0),
    ensures
        l.comes_to(code, o, all_moved(code, o, r, m, t, u, f)),
    decreases t.capacity - i, 4nat, 0nat,
{
    let goal = all_moved(code, o, r, m, t, u, f);
    assert(read(o, l.results, r.old_table.capacity) == t.capacity);
    tests(l, code, o, Pred::Uge, LType::I64, r.v(1), r.old_table.capacity);
    let m3 = l.step(code, o);
    branches(m3, code, o, r.v(2), r.b(7), r.b(1));
    let m4 = m3.step(code, o);
    if i == t.capacity {
        arrives(m4, code, o, goal);
    } else {
        old_table_stays(o, t, u, base, l.memory, i);
        assert(read(o, m4.results, r.old_table.states_ptr) == t.states);
        moves(m4, code, o, r.old_table.states_ptr, r.v(1));
        let m5 = m4.step(code, o);
        address_in_range(t.states + i);
        loads(m5, code, o, LType::I8, r.v(4));
        let m6 = m5.step(code, o);
        assert(m6.results[(r.n + 5) as usize] == t.state(i)) by {
            reveal_with_fuel(number, 2);
        }
        tests(m6, code, o, Pred::Eq, LType::I8, r.v(5), num(STATE_OCCUPIED));
        let m7 = m6.step(code, o);
        branches(m7, code, o, r.v(6), r.b(2), r.b(6));
        let m8 = m7.step(code, o);
        if t.state(i) != STATE_OCCUPIED {
            skipping_moves_nothing(o, t, Buckets { memory: l.memory, ..u }, f, i);
            rehash_counts(code, o, r, m8, m, t, u, f, base, counter, i);
        } else {
            rehash_begins(code, o, r, m8, m, t, u, f, base, counter, i);
        }
    }
}

/// An occupied bucket: its key is hashed and the new table is probed.
proof fn rehash_begins(
    code: Code,
    o: Outside,
    r: Rehash,
    l: Machine,
    m: Machine,
    t: Buckets,
    u: Buckets,
    f: KeyFns,
    base: Memory,
    counter: int,
    i: int,
)
    requires
        rehash_setting(code, o, r, m, t, u, f, base, counter),
        moving(o, r, l, m, t, u, f, i),
        i < t.capacity,
        t.state(i) == STATE_OCCUPIED,
        l.at == r.n + 8,
    ensures
        l.comes_to(code, o, all_moved(code, o, r, m, t, u, f)),
    decreases t.capacity - i, 3nat, 0nat,
{
    let now = Buckets { memory: l.memory, ..u };
    old_table_stays(o, t, u, base, l.memory, i);
    entry_address(t, i);
    multiplies(l, code, o, r.v(1), num(r.entry_size));
    let m9 = l.step(code, o);
    assert(read(o, m9.results, r.old_table.entries_ptr) == t.entries);
    moves(m9, code, o, r.old_table.entries_ptr, r.v(8));
    let m10 = m9.step(code, o);
    assert(m10.results[(r.n + 9) as usize] == t.entry(i));
    loads(m10, code, o, r.ops.key_basic_ty, r.v(9));
    let m11 = m10.step(code, o);
    let key = t.key(o, i);
    assert(m11.results[(r.n + 10) as usize] == key);
    let args = arguments(o, m11.results, a1(r.v(10)));
    assert(args.len() == 1 && args[0] == key) by {
        reveal_with_fuel(arguments, 2);
    }
    base_stays(o, t, u, base, counter, l.memory);
    calls(m11, code, o, Callee::Function(r.ops.hash_fn), a1(r.v(10)));
    let m12 = m11.step(code, o);
    let h = (f.hash)(key);
    assert(m12.results[(r.n + 11) as usize] == h && m12.memory == l.memory);
    assert(read(o, m12.results, r.new_table.capacity) == u.capacity);
    mask_is_remainder(h, u.capacity);
    combines(m12, code, o, BinOp::Sub, LType::I64, r.new_table.capacity, num(1));
    let m13 = m12.step(code, o);
    combines(m13, code, o, BinOp::And, LType::I64, r.v(11), r.v(12));
    let m14 = m13.step(code, o);
    assert(m14.results[(r.n + 13) as usize] == now.visited(h, 0));
    jumps(m14, code, o, r.b(3));
    let m15 = m14.step(code, o);
    takes(m15, code, o, LType::I64, r.v(13));
    let m16 = m15.step(code, o);
    let empty = some_bucket_is_empty(now);
    let some = probes_visit_every_bucket(now, h, empty);
    let k = KeyWords { key: key, hash: h, equal: |other: int| false };
    let stop = first_stop(o, now, k, false, 0, some);
    assert forall|e: nat| e < stop implies now.state(#[trigger] now.visited(h, e)) != STATE_EMPTY by {
        assert(!stops(o, now, k, false, now.visited(k.hash, e)));
    }
    assert(stops(o, now, k, false, now.visited(k.hash, stop)));
    rehash_probes(code, o, r, m16, m, t, u, f, base, counter, i, 0, stop);
}

/// The probe of the new table is at the bucket after `d` others.
proof fn rehash_probes(
    code: Code,
    o: Outside,
    r: Rehash,
    l: Machine,
    m: Machine,
    t: Buckets,
    u: Buckets,
    f: KeyFns,
    base: Memory,
    counter: int,
    i: int,
    d: nat,
    stop: nat,
)
    requires
        rehash_setting(code, o, r, m, t, u, f, base, counter),
        moving(o, r, l, m, t, u, f, i),
        i < t.capacity,
        t.state(i) == STATE_OCCUPIED,
        l.at == r.n + 16,
        l.results[(r.n + 9) as usize] == t.entry(i),
        l.results[(r.n + 12) as usize] == u.capacity - 1,
        d <= stop,
        ({
            let now = Buckets { memory: l.memory, ..u };
            let h = (f.hash)(t.key(o, i));
            &&& l.results[(r.n + 15) as usize] == now.visited(h, d)
            &&& now.state(now.visited(h, stop)) == STATE_EMPTY
            &&& forall|e: nat| e < stop ==> now.state(#[trigger] now.visited(h, e)) != STATE_EMPTY
        }),
    ensures
        l.comes_to(code, o, all_moved(code, o, r, m, t, u, f)),
    decreases t.capacity - i, 2nat, stop - d,
{
    let now = Buckets { memory: l.memory, ..u };
    let h = (f.hash)(t.key(o, i));
    let b = now.visited(h, d);
    visited_in_range(now, h, d);
    assert(read(o, l.results, r.new_table.states_ptr) == u.states);
    moves(l, code, o, r.new_table.states_ptr, r.v(15));
    let m17 = l.step(code, o);
    address_in_range(u.states + b);
    assert(m17.results[(r.n + 16) as usize] == u.states + b);
    loads(m17, code, o, LType::I8, r.v(16));
    let m18 = m17.step(code, o);
    assert(m18.results[(r.n + 17) as usize] == now.state(b)) by {
        reveal_with_fuel(number, 2);
    }
    tests(m18, code, o, Pred::Eq, LType::I8, r.v(17), num(STATE_EMPTY));
    let m19 = m18.step(code, o);
    branches(m19, code, o, r.v(18), r.b(5), r.b(4));
    let m20 = m19.step(code, o);
    if d == stop {
        rehash_fills(code, o, r, m20, m, t, u, f, base, counter, i, stop);
    } else {
        let mask = (u.capacity - 1) as u64;
        combines(m20, code, o, BinOp::Add, LType::I64, r.v(15), num(1));
        let m21 = m20.step(code, o);
        combines(m21, code, o, BinOp::And, LType::I64, r.v(20), r.v(12));
        let m22 = m21.step(code, o);
        next_visited(now, h, d);
        assert(m22.results[(r.n + 21) as usize] == now.visited(h, d + 1));
        jumps(m22, code, o, r.b(3));
        let n15 = m22.step(code, o);
        takes(n15, code, o, LType::I64, r.v(21));
        let n16 = n15.step(code, o);
        rehash_probes(code, o, r, n16, m, t, u, f, base, counter, i, d + 1, stop);
    }
}

/// The bucket after a visited one.
proof fn next_visited(u: Buckets, h: u64, d: nat)
    requires
        power_of_two(u.capacity),
    ensures
        u.capacity > 0,
        u.visited(h, d) + 1 <= u64::MAX,
        (u.visited(h, d) + 1) as u64 & ((u.capacity - 1) as u64) == u.visited(h, d + 1),
{
    let b = u.visited(h, d);
    mask_is_remainder(0, u.capacity);
    visited_in_range(u, h, d);
    mask_is_remainder((b + 1) as u64, u.capacity);
    let c = u.capacity as int;
    vstd::arithmetic::div_mod::lemma_add_mod_noop(h + d, 1, c);
    vstd::arithmetic::div_mod::lemma_add_mod_noop(b, 1, c);
    vstd::arithmetic::div_mod::lemma_small_mod(b as nat, c as nat);
}

/// The entry goes into the empty bucket that the probe has found.
proof fn rehash_fills(
    code: Code,
    o: Outside,
    r: Rehash,
    l: Machine,
    m: Machine,
    t: Buckets,
    u: Buckets,
    f: KeyFns,
    base: Memory,
    counter: int,
    i: int,
    stop: nat,
)
    requires
        rehash_setting(code, o, r, m, t, u, f, base, counter),
        moving(o, r, l, m, t, u, f, i),
        i < t.capacity,
        t.state(i) == STATE_OCCUPIED,
        l.at == r.n + 23,
        l.results[(r.n + 9) as usize] == t.entry(i),
        ({
            let now = Buckets { memory: l.memory, ..u };
            let h = (f.hash)(t.key(o, i));
            let at = now.visited(h, stop);
            &&& l.results[(r.n + 15) as usize] == at
            &&& l.results[(r.n + 16) as usize] == u.states + at
            &&& now.state(at) == STATE_EMPTY
            &&& forall|e: nat| e < stop ==> now.state(#[trigger] now.visited(h, e)) != STATE_EMPTY
        }),
    ensures
        l.comes_to(code, o, all_moved(code, o, r, m, t, u, f)),
    decreases t.capacity - i, 1nat, 0nat,
{
    let now = Buckets { memory: l.memory, ..u };
    let h = (f.hash)(t.key(o, i));
    let at = now.visited(h, stop);
    visited_in_range(now, h, stop);
    entry_address(u, at);
    entry_address(t, i);
    multiplies(l, code, o, r.v(15), num(r.entry_size));
    let m24 = l.step(code, o);
    assert(read(o, m24.results, r.new_table.entries_ptr) == u.entries);
    moves(m24, code, o, r.new_table.entries_ptr, r.v(23));
    let m25 = m24.step(code, o);
    let dst = u.entries + at * u.entry_size;
    let src = t.entries + i * t.entry_size;
    let size = u.entry_size as int;
    assert(m25.results[(r.n + 24) as usize] == dst);
    let entry_args = a3(r.v(24), r.v(9), num(r.entry_size));
    assert(arguments(o, m25.results, entry_args) =~= seq![dst, src, size]) by {
        reveal_with_fuel(arguments, 4);
    }
    calls(m25, code, o, Callee::Runtime(Rt::Memcpy), entry_args);
    let m26 = m25.step(code, o);
    assert(dst + size <= src || src + size <= dst || size == 0) by {
        if dst + size > src && src + size > dst && size != 0 {
            if dst <= src {
                assert(of_table(t, src) && of_table(u, src));
            } else {
                assert(of_table(t, dst) && of_table(u, dst));
            }
        }
    }
    memcpy_call(o, l.memory, dst, src, size);
    stores(m26, code, o, LType::I8, num(STATE_OCCUPIED), r.v(16));
    let m27 = m26.step(code, o);
    let w = Buckets { memory: m27.memory, ..u };
    entry_is_moved(o, t, u, base, l.memory, m26.memory, m27.memory, i, at);
    moving_moves(o, t, now, w, f, i, stop, at);
    jumps(m27, code, o, r.b(6));
    rehash_counts(code, o, r, m27.step(code, o), m, t, u, f, base, counter, i);
}

/// The bytes of a moved entry and its state.
proof fn entry_is_moved(
    o: Outside,
    t: Buckets,
    u: Buckets,
    base: Memory,
    now: Memory,
    copied: Memory,
    end: Memory,
    i: int,
    at: int,
)
    requires
        set_apart(o, t, u, base),
        differ_in_table(u, t.memory, now),
        0 <= i < t.capacity,
        0 <= at < u.capacity,
        u.entry_size == t.entry_size,
        (Buckets { memory: now, ..u }).state(at) == STATE_EMPTY,
        copies(
            now,
            u.entries + at * u.entry_size,
            t.entries + i * t.entry_size,
            u.entry_size as int,
            copied,
        ),
        end == stored(copied, u.states + at, STATE_OCCUPIED as int, 1),
    ensures
        one_more(Buckets { memory: now, ..u }, Buckets { memory: end, ..u }, at),
        same_entry(t, i, Buckets { memory: end, ..u }, at),
        differ_in_table(u, t.memory, end),
{
    entry_address(u, at);
    old_table_stays(o, t, u, base, now, i);
    let (dst, src) = (u.entries + at * u.entry_size, t.entries + i * t.entry_size);
    let w = Buckets { memory: end, ..u };
    stored_elsewhere(copied, u.states + at, STATE_OCCUPIED as int, 1);
    assert(w.state(at) == STATE_OCCUPIED) by {
        reveal_with_fuel(stored, 2);
    }
    assert forall|x: int| 0 <= x < t.entry_size implies #[trigger] byte(
        w.memory,
        w.entries + at * w.entry_size + x,
    ) == byte(t.memory, t.entries + i * t.entry_size + x) by {
        assert(byte(copied, dst + x) == byte(now, src + x));
        assert(byte(now, src + x) == byte(t.memory, src + x));
        assert(byte(end, dst + x) == byte(copied, dst + x));
    }
    assert forall|q: int| 0 <= q <= u64::MAX && !of_bucket(u, at, q) implies #[trigger] byte(end, q)
        == byte(now, q) by {
        assert(byte(copied, q) == byte(now, q));
    }
    assert forall|q: int| 0 <= q <= u64::MAX && !of_table(u, q) implies #[trigger] byte(end, q)
        == byte(t.memory, q) by {
        assert(!of_bucket(u, at, q));
    }
}

/// The end of a round.
proof fn rehash_counts(
    code: Code,
    o: Outside,
    r: Rehash,
    l: Machine,
    m: Machine,
    t: Buckets,
    u: Buckets,
    f: KeyFns,
    base: Memory,
    counter: int,
    i: int,
)
    requires
        rehash_setting(code, o, r, m, t, u, f, base, counter),
        l.returned is None,
        forall|k: usize| k < r.n ==> #[trigger] l.results[k] == m.results[k],
        differ_in_table(u, t.memory, l.memory),
        rehashed(o, t, Buckets { memory: l.memory, ..u }, f, i + 1),
        l.results[(r.n + 1) as usize] == i,
        0 <= i < t.capacity,
        l.at == r.n + 28,
    ensures
        l.comes_to(code, o, all_moved(code, o, r, m, t, u, f)),
    decreases t.capacity - i, 0nat, 0nat,
{
    address_in_range(i + 1);
    combines(l, code, o, BinOp::Add, LType::I64, r.v(1), num(1));
    let m29 = l.step(code, o);
    assert(m29.results[(r.n + 28) as usize] == i + 1);
    jumps(m29, code, o, r.b(0));
    let n1 = m29.step(code, o);
    takes(n1, code, o, LType::I64, r.v(28));
    let n2 = n1.step(code, o);
    rehash_round(code, o, r, n2, m, t, u, f, base, counter, i + 1);
}

/// The rehash loop moves every entry of the old table into the new one, to
/// where its key is looked up, and changes nothing else.
pub proof fn rehash_moves_all(
    code: Code,
    o: Outside,
    r: Rehash,
    m: Machine,
    t: Buckets,
    u: Buckets,
    f: KeyFns,
    base: Memory,
    counter: int,
)
    requires
        rehash_setting(code, o, r, m, t, u, f, base, counter),
        m.at == r.n,
        m.returned is None,
        m.memory == t.memory,
        u.memory == t.memory,
        forall|j: int| 0 <= j < u.capacity ==> #[trigger] u.state(j) == STATE_EMPTY,
    ensures
        m.comes_to(code, o, all_moved(code, o, r, m, t, u, f)),
{
    jumps(m, code, o, r.b(0));
    let m1 = m.step(code, o);
    takes(m1, code, o, LType::I64, num(0));
    let m2 = m1.step(code, o);
    nothing_moved(o, t, u, f);
    assert(u == (Buckets { memory: m2.memory, ..u }));
    rehash_round(code, o, r, m2, m, t, u, f, base, counter, 0);
}

/// The rehash loop stands where it was recorded.
pub proof fn rehash_stands(
    s: Code,
    whole: Code,
    layout: HashtableLayout,
    old_table: TableSnapshot,
    new_table: TableSnapshot,
    ops: KeyHashOps,
)
    requires
        tidy(s),
        s.blocks + 8 <= usize::MAX,
        begins_as(whole, rehash_code(s, layout, old_table, new_table, ops)),
    ensures
        tidy(rehash_code(s, layout, old_table, new_table, ops)),
        (Rehash {
            n: s.log.len(),
            block: s.blocks,
            from: s.cur,
            entry_size: layout.entry_size,
            old_table: old_table,
            new_table: new_table,
            ops: ops,
        }).stands_in(whole),
{
    let part = rehash_code(s, layout, old_table, new_table, ops);
    let n = s.log.len();
    let e = s.edges.len() as int;
    beginning_stands(whole, part);
    assert(part.log.len() == n + 30 && part.edges.len() == e + 4);
    assert forall|i: int| 0 <= i < n implies (#[trigger] part.log[i]).block < s.blocks by {
        assert(part.log[i] == s.log[i]);
    }
    assert forall|j: int| 0 <= j < e implies #[trigger] part.edges[j] == s.edges[j] by {}
    seek_finds(whole.log, s.b(0), 0, n + 1);
    seek_finds(whole.log, s.b(1), 0, n + 4);
    seek_finds(whole.log, s.b(2), 0, n + 8);
    seek_finds(whole.log, s.b(3), 0, n + 15);
    seek_finds(whole.log, s.b(4), 0, n + 20);
    seek_finds(whole.log, s.b(5), 0, n + 23);
    seek_finds(whole.log, s.b(6), 0, n + 28);
    incoming_finds(whole.edges, s.v(1), s.cur, e);
    incoming_finds(whole.edges, s.v(15), s.b(2), e + 1);
    incoming_finds(whole.edges, s.v(15), s.b(4), e + 2);
    incoming_finds(whole.edges, s.v(1), s.b(6), e + 3);
}

} // verus!
