//! What one method of a table reads of what another wrote.

use vstd::prelude::*;
use crate::ctx::EmitContext;
use crate::intrinsics::acquiring::acquires;
use crate::intrinsics::hashtable::copying::{copied_value, copies_in};
use crate::intrinsics::hashtable::insertion::{
    gave_with_key, gave_with_value, given_table, has_copy, has_value, keys_apart, Write,
};
use crate::intrinsics::hashtable::lookup::{get_finds_the_value, got_value};
use crate::intrinsics::hashtable::probing::{
    first_stop, found_at, has_tells_whether_in_table, holds_key, in_table, key_calls, receiver, stops,
    Buckets, KeyWords,
};
use crate::intrinsics::hashtable::proper::{lawful, proper};
use crate::intrinsics::hashtable::read::{has_q_code, map_get_code};
use crate::intrinsics::hashtable::rehashing::{hash_agrees, words_of};
use crate::intrinsics::hashtable::removal::{gave_without_key, held_is_counted};
use crate::intrinsics::hashtable::util::{HashtableLayout, KeyHashOps, STATE_EMPTY};
use crate::intrinsics::hashtable::writing::value_in;
use crate::ir::{IRSymbol, IRType};
use crate::llvm::{start, Code, Val};
use crate::memory::{sound, starved};
use crate::semantics::{booted, Machine, Outside};
use crate::types::value_type;

verus! {

/// A call that receives what an earlier one gave back, with a key and the
/// same functions of its type.
pub open spec fn receives(
    o: Outside,
    later: Outside,
    l: Machine,
    layout: HashtableLayout,
    ops: KeyHashOps,
    s: Write,
    key: int,
) -> bool {
    &&& later.sizes == o.sizes
    &&& forall|i: usize| i < 4 ==> #[trigger] (later.parts)(0, i) == l.returned_parts[i]
    &&& (later.values)(Val::Param(1)) == key
    &&& key_calls(later, ops, l.memory, words_of(s.f, key))
    &&& s.holds(o, layout, ops)
}

/// The receiver of the later call is the table that was given back.
proof fn receiver_is_given(
    o: Outside,
    later: Outside,
    l: Machine,
    layout: HashtableLayout,
    ops: KeyHashOps,
    s: Write,
    key: int,
)
    requires
        receives(o, later, l, layout, ops, s, key),
    ensures
        receiver(later, l.memory, layout, ops.key_basic_ty) == given_table(l, s.t),
        forall|b: int|
            0 <= b ==> #[trigger] given_table(l, s.t).key(later, b) == given_table(l, s.t).key(o, b),
{
    assert((later.parts)(0, 0) == l.returned_parts[0]);
    assert((later.parts)(0, 1) == l.returned_parts[1]);
    assert((later.parts)(0, 3) == l.returned_parts[3]);
}

/// `has?` on what `Set.insert` gave back is true of the inserted item.
pub proof fn has_after_insert(
    o: Outside,
    later: Outside,
    code: Code,
    l: Machine,
    layout: HashtableLayout,
    ops: KeyHashOps,
    s: Write,
)
    requires
        gave_with_key(code, o, s)(l),
        !starved(code, l),
        receives(o, later, l, layout, ops, s, s.key),
    ensures
        ({
            let has = has_q_code(start(), layout, ops);
            booted(has, l.memory).gives_back(has, later, 1)
        }),
{
    let w = given_table(l, s.t);
    let k = s.words();
    receiver_is_given(o, later, l, layout, ops, s, s.key);
    assert((later.parts)(0, 0) == l.returned_parts[0] && (later.parts)(0, 1) == l.returned_parts[1]);
    assert((later.parts)(0, 2) == l.returned_parts[2] && (later.parts)(0, 3) == l.returned_parts[3]);
    assert(in_table(later, w, k)) by {
        let d = choose|d: nat|
            holds_key(o, w, k, #[trigger] w.visited(k.hash, d)) && forall|e: nat|
                e <= d ==> w.state(#[trigger] w.visited(k.hash, e))
                    != STATE_EMPTY;
        vstd::arithmetic::div_mod::lemma_mod_bound(k.hash + d, w.capacity as int);
        assert(holds_key(later, w, k, w.visited(k.hash, d)));
    }
    has_tells_whether_in_table(later, l.memory, layout, ops, k, 0);
}

/// `has?` on what `remove` gave back is false of the removed key, as long
/// as some bucket was never filled.
pub proof fn has_after_remove(
    c: &EmitContext,
    o: Outside,
    later: Outside,
    code: Code,
    l: Machine,
    layout: HashtableLayout,
    ops: KeyHashOps,
    s: Write,
    empty: int,
)
    requires
        gave_without_key(c, code, o, layout, s)(l),
        !starved(code, l),
        receives(o, later, l, layout, ops, s, s.key),
        lawful(s.f),
        proper(o, s.t, s.f),
        0 <= empty < given_table(l, s.t).capacity,
        given_table(l, s.t).state(empty) == STATE_EMPTY,
    ensures
        ({
            let has = has_q_code(start(), layout, ops);
            booted(has, l.memory).gives_back(has, later, 0)
        }),
{
    let w = given_table(l, s.t);
    let k = s.words();
    receiver_is_given(o, later, l, layout, ops, s, s.key);
    assert((later.parts)(0, 0) == l.returned_parts[0] && (later.parts)(0, 1) == l.returned_parts[1]);
    assert((later.parts)(0, 2) == l.returned_parts[2] && (later.parts)(0, 3) == l.returned_parts[3]);
    assert(!in_table(later, w, k)) by {
        if in_table(later, w, k) {
            let d = choose|d: nat|
                holds_key(later, w, k, #[trigger] w.visited(k.hash, d)) && forall|e: nat|
                    e <= d ==> w.state(#[trigger] w.visited(k.hash, e)) != STATE_EMPTY;
            vstd::arithmetic::div_mod::lemma_mod_bound(k.hash + d, w.capacity as int);
            assert(holds_key(o, w, k, w.visited(k.hash, d)));
        }
    }
    if in_table(o, s.t, k) {
        let d = choose|d: nat|
            holds_key(o, s.t, k, #[trigger] s.t.visited(k.hash, d)) && forall|e: nat|
                e <= d ==> s.t.state(#[trigger] s.t.visited(k.hash, e)) != STATE_EMPTY;
        vstd::arithmetic::div_mod::lemma_mod_bound(k.hash + d, s.t.capacity as int);
        held_is_counted(o, s, s.t.visited(k.hash, d));
    }
    has_tells_whether_in_table(later, l.memory, layout, ops, k, empty);
}

/// `Map.get` on what `Map.put` gave back gives the copy of the value that
/// was put, acquired once more.
pub proof fn get_after_put(
    c: &EmitContext,
    o: Outside,
    later: Outside,
    code: Code,
    l: Machine,
    layout: HashtableLayout,
    ops: KeyHashOps,
    value_ty: IRType,
    option: IRSymbol,
    s: Write,
    value: int,
)
    requires
        gave_with_value(c, code, o, layout, value_ty, s, value)(l),
        !starved(code, l),
        receives(o, later, l, layout, ops, s, s.key),
        acquires(c, later, value_ty),
        sound(l.memory),
        layout.key_size <= layout.entry_size,
    ensures
        ({
            let get = map_get_code(c, start(), layout, ops, value_ty, option);
            exists|y: int| #[trigger]
                copied_value(c, o, value_ty, s.counter, s.t.memory, value, l.memory, y) && booted(
                    get,
                    l.memory,
                ).comes_to(get, later, got_value(c, later, layout, ops, value_ty, y, l.memory))
        }),
{
    let w = given_table(l, s.t);
    let k = s.words();
    let ty = value_type(value_ty);
    receiver_is_given(o, later, l, layout, ops, s, s.key);
    assert((later.parts)(0, 0) == l.returned_parts[0] && (later.parts)(0, 1) == l.returned_parts[1]);
    assert((later.parts)(0, 2) == l.returned_parts[2] && (later.parts)(0, 3) == l.returned_parts[3]);
    let b = choose|b: int|
        0 <= b < w.capacity && #[trigger] found_at(o, w, k, b) && copied_value(
            c,
            o,
            value_ty,
            s.counter,
            s.t.memory,
            value,
            l.memory,
            value_in(o, w, layout, ty, b),
        );
    found_alike(o, later, w, k, b);
    get_finds_the_value(c, later, l.memory, layout, ops, value_ty, option, k, b);
}

/// What a lookup ends at is the same for a later call.
proof fn found_alike(o: Outside, later: Outside, w: Buckets, k: KeyWords, b: int)
    requires
        found_at(o, w, k, b),
        0 < w.capacity,
        0 <= b,
        forall|i: int| 0 <= i ==> #[trigger] w.key(later, i) == w.key(o, i),
    ensures
        found_at(later, w, k, b),
{
    let d = choose|d: nat| #[trigger]
        w.visited(k.hash, d) == b && forall|e: nat|
            e < d ==> !stops(o, w, k, false, #[trigger] w.visited(k.hash, e));
    assert forall|e: nat| e < d implies !stops(later, w, k, false, #[trigger] w.visited(k.hash, e)) by {
        vstd::arithmetic::div_mod::lemma_mod_bound(k.hash + e, w.capacity as int);
        assert(!stops(o, w, k, false, w.visited(k.hash, e)));
    }
    assert(w.visited(k.hash, d) == b);
}

/// A key that is in a table is where a lookup ends.
proof fn lookup_ends(o: Outside, t: Buckets, k: KeyWords) -> (b: int)
    requires
        in_table(o, t, k),
        0 < t.capacity,
    ensures
        0 <= b < t.capacity,
        found_at(o, t, k, b),
{
    let d = choose|d: nat|
        holds_key(o, t, k, #[trigger] t.visited(k.hash, d)) && forall|e: nat|
            e <= d ==> t.state(#[trigger] t.visited(k.hash, e)) != STATE_EMPTY;
    let stop = first_stop(o, t, k, false, 0, d);
    let b = t.visited(k.hash, stop);
    vstd::arithmetic::div_mod::lemma_mod_bound(k.hash + stop, t.capacity as int);
    assert(t.state(b) != STATE_EMPTY);
    assert(holds_key(o, t, k, b));
    b
}

/// `Map.get` of another key on what `Map.put` gave back gives the copy of
/// the value that the key had before, acquired once more.
pub proof fn get_of_another_after_put(
    c: &EmitContext,
    o: Outside,
    later: Outside,
    code: Code,
    l: Machine,
    layout: HashtableLayout,
    ops: KeyHashOps,
    value_ty: IRType,
    option: IRSymbol,
    s: Write,
    value: int,
    key: int,
    v: int,
)
    requires
        gave_with_value(c, code, o, layout, value_ty, s, value)(l),
        !starved(code, l),
        receives(o, later, l, layout, ops, s, key),
        hash_agrees(s.f, key),
        keys_apart(s.f, s.key, key),
        has_value(o, s.t, layout, value_type(value_ty), words_of(s.f, key), v),
        layout.value_ty == Some(value_ty),
        acquires(c, later, value_ty),
        sound(l.memory),
        layout.key_size <= layout.entry_size,
    ensures
        ({
            let get = map_get_code(c, start(), layout, ops, value_ty, option);
            exists|y: int| #[trigger]
                copied_value(c, o, value_ty, s.counter, s.t.memory, v, l.memory, y) && booted(
                    get,
                    l.memory,
                ).comes_to(get, later, got_value(c, later, layout, ops, value_ty, y, l.memory))
        }),
{
    let w = given_table(l, s.t);
    let k = words_of(s.f, key);
    let ty = value_type(value_ty);
    receiver_is_given(o, later, l, layout, ops, s, key);
    assert((later.parts)(0, 0) == l.returned_parts[0] && (later.parts)(0, 1) == l.returned_parts[1]);
    assert((later.parts)(0, 2) == l.returned_parts[2] && (later.parts)(0, 3) == l.returned_parts[3]);
    let copies = copies_in(c, o, layout, s.counter, s.t.memory, l.memory);
    assert(has_copy(o, w, layout, ty, k, copies, v));
    let b = lookup_ends(o, w, k);
    assert(holds_key(o, w, k, b));
    assert(copies(v, value_in(o, w, layout, ty, b)));
    found_alike(o, later, w, k, b);
    get_finds_the_value(c, later, l.memory, layout, ops, value_ty, option, k, b);
}

} // verus!
