//! The order in which enum layouts are fixed.
//!
//! The size of an enum is the size of its widest variant, so an enum that
//! holds another one by value has to wait until the other one's layout is
//! known. What a type holds by value is followed through structs, tuples
//! and unions; everything behind a pointer (collections, closures, boxes)
//! asks for nothing. An enum that the program does not declare asks for
//! nothing either.

use vstd::prelude::*;
use crate::ctx::{field_types, payload_slots, EmitContext};
use crate::ir::{IREnumDecl, IREnumVariant, IRSymbol, IRType, IRVariantPayload};
use crate::layout::topo::{depends, dependency_order, graph, order, ordered, well_formed};
use crate::text::precedes;

verus! {

/// What a type holds by value, one level down.
pub open spec fn inline_parts(c: &EmitContext, ty: IRType) -> Seq<IRType> {
    match ty {
        IRType::Struct(symbol) => c.fields(symbol),
        IRType::Tuple(tuple) => c.elements(tuple),
        IRType::Union(union) => c.members(union),
        _ => Seq::empty(),
    }
}

/// A way down from a type to what it holds by value.
pub open spec fn inline_walk(c: &EmitContext, walk: Seq<IRType>) -> bool {
    &&& walk.len() > 0
    &&& forall|i: int|
        0 <= i < walk.len() - 1 ==> inline_parts(c, walk[i]).contains(#[trigger] walk[i + 1])
}

/// `ty` is `part` or holds it by value.
pub open spec fn holds_inline(c: &EmitContext, ty: IRType, part: IRType) -> bool {
    exists|walk: Seq<IRType>| #[trigger]
        inline_walk(c, walk) && walk[0] == ty && walk.last() == part
}

/// One of some types is `part` or holds it by value.
pub open spec fn some_holds(c: &EmitContext, roots: Seq<IRType>, part: IRType) -> bool {
    exists|i: int| 0 <= i < roots.len() && holds_inline(c, #[trigger] roots[i], part)
}

/// The slot types of the first `k` variants.
pub open spec fn variant_slots(variants: Seq<IREnumVariant>, k: nat) -> Seq<IRType>
    decreases k,
{
    if k == 0 {
        Seq::empty()
    } else {
        variant_slots(variants, (k - 1) as nat) + payload_slots(variants[k - 1].payload)
    }
}

/// Enum `decl` holds enum `target` by value.
pub open spec fn refers(c: &EmitContext, decl: IREnumDecl, target: IRSymbol) -> bool {
    some_holds(c, variant_slots(decl.variants@, decl.variants@.len()), IRType::Enum(target))
}

/// A number for every type.
spec fn number_of(ty: IRType) -> int {
    let b = 0x1_0000_0000_0000_0000int;
    let a = b * b;
    match ty {
        IRType::Binary => 0,
        IRType::Bits => 1,
        IRType::Bool => 2,
        IRType::Float32 => 3,
        IRType::Float64 => 4,
        IRType::Int8 => 5,
        IRType::Int16 => 6,
        IRType::Int32 => 7,
        IRType::Int64 => 8,
        IRType::String => 9,
        IRType::UInt8 => 10,
        IRType::UInt16 => 11,
        IRType::UInt32 => 12,
        IRType::UInt64 => 13,
        IRType::Unit => 14,
        IRType::CPtr(i) => b + i,
        IRType::Enum(s) => 2 * b + s.0,
        IRType::Function(i) => 3 * b + i,
        IRType::Indirect(i) => 4 * b + i,
        IRType::List(i) => 5 * b + i,
        IRType::SetOf(i) => 6 * b + i,
        IRType::Struct(s) => 7 * b + s.0,
        IRType::Tuple(i) => 8 * b + i,
        IRType::Union(i) => 9 * b + i,
        IRType::MapOf(k, v) => a + b * k + v,
    }
}

proof fn numbers_differ(x: IRType, y: IRType)
    requires
        number_of(x) == number_of(y),
    ensures
        x == y,
{
}

proof fn numbers_are_bounded(x: IRType)
    ensures
        0 <= number_of(x) < 2 * 0x1_0000_0000_0000_0000int * 0x1_0000_0000_0000_0000int,
{
}

/// Types without repetition are not more than there are types.
proof fn distinct_types_are_few(types: Seq<IRType>)
    requires
        types.no_duplicates(),
    ensures
        types.len() <= 2 * 0x1_0000_0000_0000_0000int * 0x1_0000_0000_0000_0000int,
{
    let bound = 2 * 0x1_0000_0000_0000_0000int * 0x1_0000_0000_0000_0000int;
    let nums = types.map_values(|ty: IRType| number_of(ty));
    assert(nums.no_duplicates()) by {
        assert forall|i: int, j: int| 0 <= i < nums.len() && 0 <= j < nums.len() && i != j implies nums[i]
            != nums[j] by {
            if nums[i] == nums[j] {
                numbers_differ(types[i], types[j]);
            }
        }
    }
    nums.unique_seq_to_set();
    let all = vstd::set_lib::set_int_range(0, bound);
    vstd::set_lib::lemma_int_range(0, bound);
    assert(nums.to_set().subset_of(all)) by {
        assert forall|n: int| nums.to_set().contains(n) implies all.contains(n) by {
            let k = choose|k: int| 0 <= k < nums.len() && nums[k] == n;
            numbers_are_bounded(types[k]);
        }
    }
    vstd::set_lib::lemma_len_subset(nums.to_set(), all);
}

proof fn step_is_held(c: &EmitContext, roots: Seq<IRType>, a: IRType, b: IRType)
    requires
        some_holds(c, roots, a),
        inline_parts(c, a).contains(b),
    ensures
        some_holds(c, roots, b),
{
    let i = choose|i: int| 0 <= i < roots.len() && holds_inline(c, #[trigger] roots[i], a);
    let walk = choose|walk: Seq<IRType>| #[trigger]
        inline_walk(c, walk) && walk[0] == roots[i] && walk.last() == a;
    let longer = walk.push(b);
    assert forall|n: int| 0 <= n < longer.len() - 1 implies inline_parts(c, longer[n]).contains(
        #[trigger] longer[n + 1],
    ) by {
        if n < walk.len() - 1 {
            assert(longer[n + 1] == walk[n + 1]);
        }
    }
    assert(inline_walk(c, longer));
    assert(longer[0] == roots[i] && longer.last() == b);
    assert(holds_inline(c, roots[i], b));
}

proof fn closed_holds_inline(c: &EmitContext, types: Seq<IRType>, walk: Seq<IRType>)
    requires
        inline_walk(c, walk),
        types.contains(walk[0]),
        forall|a: IRType, b: IRType|
            types.contains(a) && #[trigger] inline_parts(c, a).contains(b) ==> types.contains(b),
    ensures
        types.contains(walk.last()),
    decreases walk.len(),
{
    if walk.len() > 1 {
        let shorter = walk.drop_last();
        assert forall|n: int| 0 <= n < shorter.len() - 1 implies inline_parts(
            c,
            shorter[n],
        ).contains(#[trigger] shorter[n + 1]) by {
            assert(walk[n + 1] == shorter[n + 1]);
        }
        closed_holds_inline(c, types, shorter);
        assert(inline_parts(c, walk[walk.len() - 2]).contains(walk[walk.len() - 2 + 1]));
    }
}

fn listed(types: &Vec<IRType>, ty: IRType) -> (r: bool)
    ensures
        r == types@.contains(ty),
{
    let mut i: usize = 0;
    while i < types.len()
        invariant
            i <= types.len(),
            forall|j: int| 0 <= j < i ==> types@[j] != ty,
        decreases types.len() - i,
    {
        if types[i] == ty {
            assert(types@.contains(ty));
            return true;
        }
        i = i + 1;
    }
    false
}

/// Adds what is not listed yet.
fn list_all(seen: &mut Vec<IRType>, types: &Vec<IRType>)
    requires
        old(seen)@.no_duplicates(),
    ensures
        final(seen)@.no_duplicates(),
        old(seen)@.is_prefix_of(final(seen)@),
        forall|ty: IRType| #[trigger]
            final(seen)@.contains(ty) <==> old(seen)@.contains(ty) || types@.contains(ty),
{
    let mut i: usize = 0;
    while i < types.len()
        invariant
            i <= types.len(),
            seen@.no_duplicates(),
            old(seen)@.is_prefix_of(seen@),
            forall|ty: IRType| #[trigger]
                seen@.contains(ty) <==> old(seen)@.contains(ty) || types@.subrange(
                    0,
                    i as int,
                ).contains(ty),
        decreases types.len() - i,
    {
        let ghost before = seen@;
        let ghost done = types@.subrange(0, i as int);
        if !listed(seen, types[i]) {
            seen.push(types[i]);
        }
        let ghost next = types@.subrange(0, i + 1);
        assert forall|ty: IRType| #[trigger] seen@.contains(ty) <==> old(seen)@.contains(ty)
            || next.contains(ty) by {
            if seen@.contains(ty) {
                let k = choose|k: int| 0 <= k < seen@.len() && seen@[k] == ty;
                if k < before.len() {
                    assert(before[k] == ty);
                    assert(before.contains(ty));
                    if done.contains(ty) {
                        let n = choose|n: int| 0 <= n < done.len() && done[n] == ty;
                        assert(next[n] == ty);
                    }
                } else {
                    assert(next[i as int] == ty);
                }
            }
            if old(seen)@.contains(ty) || done.contains(ty) {
                assert(before.contains(ty));
                let k = choose|k: int| 0 <= k < before.len() && before[k] == ty;
                assert(seen@[k] == ty);
            }
            if next.contains(ty) && !done.contains(ty) {
                let n = choose|n: int| 0 <= n < next.len() && next[n] == ty;
                if n < i {
                    assert(done[n] == ty);
                }
                assert(ty == types@[i as int]);
                if before.contains(ty) {
                    let k = choose|k: int| 0 <= k < before.len() && before[k] == ty;
                    assert(seen@[k] == ty);
                } else {
                    assert(seen@[seen@.len() - 1] == ty);
                }
            }
        }
        i = i + 1;
    }
    assert(types@.subrange(0, types@.len() as int) =~= types@);
}

/// What a type holds by value, one level down.
fn parts_of(c: &EmitContext, ty: IRType) -> (r: Vec<IRType>)
    ensures
        r@ == inline_parts(c, ty),
{
    match ty {
        IRType::Struct(symbol) => match c.find_struct(symbol) {
            Some(at) => {
                let fields = &c.structs[at].fields;
                let mut out: Vec<IRType> = Vec::new();
                let mut i: usize = 0;
                while i < fields.len()
                    invariant
                        i <= fields.len(),
                        out@ == field_types(fields@).subrange(0, i as int),
                    decreases fields.len() - i,
                {
                    out.push(fields[i].ir_type);
                    i = i + 1;
                    assert(out@ =~= field_types(fields@).subrange(0, i as int));
                }
                assert(out@ =~= field_types(fields@));
                out
            },
            None => Vec::new(),
        },
        IRType::Tuple(tuple) => if tuple < c.tuples.len() {
            copy_types(&c.tuples[tuple])
        } else {
            Vec::new()
        },
        IRType::Union(union) => if union < c.unions.len() {
            copy_types(&c.unions[union].members)
        } else {
            Vec::new()
        },
        _ => Vec::new(),
    }
}

fn copy_types(types: &Vec<IRType>) -> (r: Vec<IRType>)
    ensures
        r@ == types@,
{
    let mut out: Vec<IRType> = Vec::new();
    let mut i: usize = 0;
    while i < types.len()
        invariant
            i <= types.len(),
            out@ == types@.subrange(0, i as int),
        decreases types.len() - i,
    {
        out.push(types[i]);
        i = i + 1;
        assert(out@ =~= types@.subrange(0, i as int));
    }
    assert(out@ =~= types@);
    out
}

/// Everything that some types hold by value, themselves among it, each
/// once.
pub fn inline_types(c: &EmitContext, roots: &Vec<IRType>) -> (r: Vec<IRType>)
    ensures
        r@.no_duplicates(),
        forall|ty: IRType| #[trigger] r@.contains(ty) <==> some_holds(c, roots@, ty),
{
    let ghost bound = 2 * 0x1_0000_0000_0000_0000int * 0x1_0000_0000_0000_0000int;
    let mut seen: Vec<IRType> = Vec::new();
    list_all(&mut seen, roots);
    assert forall|i: int| 0 <= i < seen@.len() implies some_holds(c, roots@, #[trigger] seen@[i]) by {
        assert(seen@.contains(seen@[i]));
        let k = choose|k: int| 0 <= k < roots@.len() && roots@[k] == seen@[i];
        let walk = seq![seen@[i]];
        assert(inline_walk(c, walk) && walk[0] == seen@[i] && walk.last() == seen@[i]);
        assert(holds_inline(c, roots@[k], seen@[i]));
    }
    assert forall|k: int| 0 <= k < roots@.len() implies seen@.contains(#[trigger] roots@[k]) by {
        assert(roots@.contains(roots@[k]));
    }
    let mut head: usize = 0;
    while head < seen.len()
        invariant
            head <= seen.len(),
            seen@.no_duplicates(),
            bound == 2 * 0x1_0000_0000_0000_0000int * 0x1_0000_0000_0000_0000int,
            head <= bound,
            forall|i: int| 0 <= i < seen@.len() ==> some_holds(c, roots@, #[trigger] seen@[i]),
            forall|k: int| 0 <= k < roots@.len() ==> seen@.contains(#[trigger] roots@[k]),
            forall|i: int, b: IRType|
                0 <= i < head && #[trigger] inline_parts(c, seen@[i]).contains(b)
                    ==> seen@.contains(b),
        decreases bound - head,
    {
        proof {
            distinct_types_are_few(seen@);
        }
        let ghost before = seen@;
        let ty = seen[head];
        let parts = parts_of(c, ty);
        list_all(&mut seen, &parts);
        assert forall|i: int| 0 <= i < seen@.len() implies some_holds(
            c,
            roots@,
            #[trigger] seen@[i],
        ) by {
            assert(seen@.contains(seen@[i]));
            if before.contains(seen@[i]) {
                let k = choose|k: int| 0 <= k < before.len() && before[k] == seen@[i];
                assert(some_holds(c, roots@, before[k]));
            } else {
                step_is_held(c, roots@, before[head as int], seen@[i]);
            }
        }
        assert forall|k: int| 0 <= k < roots@.len() implies seen@.contains(#[trigger] roots@[k]) by {
            assert(before.contains(roots@[k]));
        }
        assert forall|i: int, b: IRType|
            0 <= i < head + 1 && #[trigger] inline_parts(c, seen@[i]).contains(
                b,
            ) implies seen@.contains(b) by {
            assert(seen@[i] == before[i]);
            if i < head {
                assert(before.contains(b));
            } else {
                assert(parts@.contains(b));
            }
        }
        head = head + 1;
    }
    assert forall|ty: IRType| #[trigger] seen@.contains(ty) <==> some_holds(c, roots@, ty) by {
        if seen@.contains(ty) {
            let k = choose|k: int| 0 <= k < seen@.len() && seen@[k] == ty;
            assert(some_holds(c, roots@, seen@[k]));
        }
        if some_holds(c, roots@, ty) {
            let k = choose|k: int|
                0 <= k < roots@.len() && holds_inline(c, #[trigger] roots@[k], ty);
            let walk = choose|walk: Seq<IRType>| #[trigger]
                inline_walk(c, walk) && walk[0] == roots@[k] && walk.last() == ty;
            assert forall|a: IRType, b: IRType|
                seen@.contains(a) && #[trigger] inline_parts(c, a).contains(
                    b,
                ) implies seen@.contains(b) by {
                let i = choose|i: int| 0 <= i < seen@.len() && seen@[i] == a;
                assert(inline_parts(c, seen@[i]).contains(b));
            }
            closed_holds_inline(c, seen@, walk);
        }
    }
    seen
}

fn slots_of_variants(decl: &IREnumDecl) -> (r: Vec<IRType>)
    ensures
        r@ == variant_slots(decl.variants@, decl.variants@.len()),
{
    let mut out: Vec<IRType> = Vec::new();
    assert(out@ =~= Seq::empty());
    let mut i: usize = 0;
    while i < decl.variants.len()
        invariant
            i <= decl.variants.len(),
            out@ == variant_slots(decl.variants@, i as nat),
        decreases decl.variants.len() - i,
    {
        let ghost before = out@;
        match &decl.variants[i].payload {
            IRVariantPayload::Unit => {},
            IRVariantPayload::Tuple(types) => {
                let mut j: usize = 0;
                while j < types.len()
                    invariant
                        j <= types.len(),
                        out@ == before + types@.subrange(0, j as int),
                    decreases types.len() - j,
                {
                    out.push(types[j]);
                    j = j + 1;
                    assert(out@ =~= before + types@.subrange(0, j as int));
                }
                assert(types@.subrange(0, types@.len() as int) =~= types@);
            },
            IRVariantPayload::Struct(fields) => {
                let mut j: usize = 0;
                while j < fields.len()
                    invariant
                        j <= fields.len(),
                        out@ == before + field_types(fields@).subrange(0, j as int),
                    decreases fields.len() - j,
                {
                    out.push(fields[j].ir_type);
                    j = j + 1;
                    assert(out@ =~= before + field_types(fields@).subrange(0, j as int));
                }
                assert(field_types(fields@).subrange(0, fields@.len() as int) =~= field_types(
                    fields@,
                ));
            },
        }
        assert(out@ =~= before + payload_slots(decl.variants@[i as int].payload));
        i = i + 1;
    }
    out
}

/// The enums that declaration `i` holds by value, by place and in order.
pub open spec fn referred(c: &EmitContext, enums: Seq<IREnumDecl>, i: int, k: nat) -> Seq<usize>
    decreases k,
{
    if k == 0 {
        Seq::empty()
    } else {
        let rest = referred(c, enums, i, (k - 1) as nat);
        if refers(c, enums[i], enums[k - 1].symbol) {
            rest.push((k - 1) as usize)
        } else {
            rest
        }
    }
}

/// The dependency lists of some enums.
pub open spec fn enum_graph(c: &EmitContext, enums: Seq<IREnumDecl>) -> Seq<Seq<usize>> {
    Seq::new(enums.len(), |i: int| referred(c, enums, i, enums.len()))
}

proof fn referred_are_places(c: &EmitContext, enums: Seq<IREnumDecl>, i: int, k: nat)
    requires
        k <= enums.len() <= usize::MAX,
    ensures
        forall|n: int|
            0 <= n < referred(c, enums, i, k).len() ==> #[trigger] referred(c, enums, i, k)[n] < k,
        forall|j: usize|
            j < k ==> (#[trigger] referred(c, enums, i, k).contains(j) <==> refers(
                c,
                enums[i],
                enums[j as int].symbol,
            )),
    decreases k,
{
    if k > 0 {
        referred_are_places(c, enums, i, (k - 1) as nat);
        let rest = referred(c, enums, i, (k - 1) as nat);
        let all = referred(c, enums, i, k);
        assert forall|n: int| 0 <= n < all.len() implies #[trigger] all[n] < k by {
            if n < rest.len() {
                assert(all[n] == rest[n]);
            }
        }
        assert forall|j: usize| j < k implies (#[trigger] all.contains(j) <==> refers(
            c,
            enums[i],
            enums[j as int].symbol,
        )) by {
            if j < k - 1 {
                if rest.contains(j) {
                    let n = choose|n: int| 0 <= n < rest.len() && rest[n] == j;
                    assert(all[n] == j);
                }
                if all.contains(j) {
                    let n = choose|n: int| 0 <= n < all.len() && all[n] == j;
                    assert(n < rest.len());
                    assert(rest[n] == j);
                }
                assert(rest.contains(j) <==> all.contains(j));
            } else {
                if refers(c, enums[i], enums[k - 1].symbol) {
                    assert(all[all.len() - 1] == j);
                } else if all.contains(j) {
                    let n = choose|n: int| 0 <= n < all.len() && all[n] == j;
                    assert(rest[n] == j);
                }
            }
        }
    }
}

/// An index of some enums: one place for every symbol, the last one where
/// it is declared, in the order of the symbols.
pub open spec fn is_index(enums: Seq<IREnumDecl>, index: Seq<usize>) -> bool {
    &&& forall|i: int| 0 <= i < index.len() ==> (#[trigger] index[i]) < enums.len()
    &&& forall|i: int, j: int|
        0 <= i < j < index.len() ==> enums[#[trigger] index[i] as int].symbol.0
            < enums[#[trigger] index[j] as int].symbol.0
    &&& forall|i: int, k: int|
        0 <= i < index.len() && #[trigger] index[i] < k < enums.len() ==> (#[trigger] enums[k]).symbol
            != enums[index[i] as int].symbol
    &&& forall|k: int| 0 <= k < enums.len() ==> #[trigger] indexes(enums, index, enums[k].symbol)
}

/// The index holds the symbol.
pub open spec fn indexes(enums: Seq<IREnumDecl>, index: Seq<usize>, symbol: IRSymbol) -> bool {
    exists|i: int| 0 <= i < index.len() && enums[#[trigger] index[i] as int].symbol == symbol
}

/// The declarations of an index.
pub open spec fn indexed(enums: Seq<IREnumDecl>, index: Seq<usize>) -> Seq<IREnumDecl> {
    Seq::new(index.len(), |i: int| enums[index[i] as int])
}

/// The places that an order of an index stands for.
pub open spec fn places(index: Seq<usize>, order: Seq<usize>) -> Seq<usize> {
    Seq::new(order.len(), |i: int| index[order[i] as int])
}

/// The enums that are declared, by symbol.
pub fn build_enum_index(enums: &Vec<IREnumDecl>) -> (r: Vec<usize>)
    ensures
        is_index(enums@, r@),
        r@.len() <= enums@.len(),
{
    let mut index: Vec<usize> = Vec::new();
    let mut k: usize = 0;
    while k < enums.len()
        invariant
            k <= enums.len(),
            index@.len() <= k,
            is_index(enums@.subrange(0, k as int), index@),
        decreases enums.len() - k,
    {
        let ghost done = enums@.subrange(0, k as int);
        let ghost next = enums@.subrange(0, k + 1);
        let ghost before = index@;
        let symbol: usize = enums[k].symbol.0;
        let mut p: usize = 0;
        while p < index.len() && enums[index[p]].symbol.0 < symbol
            invariant
                p <= index.len(),
                k < enums.len(),
                index@ == before,
                is_index(enums@.subrange(0, k as int), index@),
                symbol == enums@[k as int].symbol.0,
                forall|i: int|
                    0 <= i < index@.len() ==> (#[trigger] index@[i]) < k,
                forall|i: int|
                    0 <= i < p ==> enums@[#[trigger] index@[i] as int].symbol.0 < symbol,
            decreases index.len() - p,
        {
            p = p + 1;
        }
        if p < index.len() && enums[index[p]].symbol.0 == symbol {
            index.set(p, k);
            assert(is_index(next, index@)) by {
                assert forall|i: int| 0 <= i < index@.len() implies (#[trigger] index@[i])
                    < next.len() by {
                    if i != p {
                        assert(index@[i] == before[i]);
                    }
                }
                assert forall|i: int, j: int| 0 <= i < j < index@.len() implies next[#[trigger] index@[i] as int].symbol.0
                    < next[#[trigger] index@[j] as int].symbol.0 by {
                    assert(done[before[i] as int].symbol.0 < done[before[j] as int].symbol.0);
                    assert(next[index@[i] as int].symbol.0 == done[before[i] as int].symbol.0);
                    assert(next[index@[j] as int].symbol.0 == done[before[j] as int].symbol.0);
                }
                assert forall|i: int, m: int|
                    0 <= i < index@.len() && #[trigger] index@[i] < m < next.len() implies (
                #[trigger] next[m]).symbol != next[index@[i] as int].symbol by {
                    if m < k {
                        assert(index@[i] == before[i]);
                        assert(done[m].symbol != done[before[i] as int].symbol);
                    } else {
                        assert(i != p);
                        if i < p {
                            assert(done[before[i] as int].symbol.0 < done[before[p as int] as int].symbol.0);
                        } else {
                            assert(done[before[p as int] as int].symbol.0 < done[before[i] as int].symbol.0);
                        }
                    }
                }
                assert forall|m: int| 0 <= m < next.len() implies #[trigger] indexes(
                    next,
                    index@,
                    next[m].symbol,
                ) by {
                    if m < k {
                        assert(indexes(done, before, done[m].symbol));
                        let i = choose|i: int|
                            0 <= i < before.len() && done[#[trigger] before[i] as int].symbol
                                == done[m].symbol;
                        assert(next[index@[i] as int].symbol == next[m].symbol);
                    } else {
                        assert(next[index@[p as int] as int].symbol == next[m].symbol);
                    }
                }
            }
        } else {
            index.insert(p, k);
            assert(is_index(next, index@)) by {
                assert forall|i: int| p <= i < before.len() implies done[#[trigger] before[i] as int].symbol.0
                    > symbol by {
                    if i > p {
                        assert(done[before[p as int] as int].symbol.0 < done[before[i] as int].symbol.0);
                    }
                }
                assert forall|i: int| 0 <= i < index@.len() implies (#[trigger] index@[i])
                    < next.len() by {
                    if i < p {
                        assert(index@[i] == before[i]);
                    } else if i > p {
                        assert(index@[i] == before[i - 1]);
                    }
                }
                assert forall|i: int, j: int| 0 <= i < j < index@.len() implies next[#[trigger] index@[i] as int].symbol.0
                    < next[#[trigger] index@[j] as int].symbol.0 by {
                    if j < p {
                        assert(done[before[i] as int].symbol.0 < done[before[j] as int].symbol.0);
                    } else if i > p {
                        assert(done[before[i - 1] as int].symbol.0 < done[before[j - 1] as int].symbol.0);
                    } else if i < p && j > p {
                        assert(done[before[i] as int].symbol.0 < done[before[j - 1] as int].symbol.0);
                    } else if i < p {
                        assert(index@[i] == before[i]);
                    } else {
                        assert(index@[j] == before[j - 1]);
                    }
                }
                assert forall|i: int, m: int|
                    0 <= i < index@.len() && #[trigger] index@[i] < m < next.len() implies (
                #[trigger] next[m]).symbol != next[index@[i] as int].symbol by {
                    assert(i != p);
                    let at = if i < p {
                        i
                    } else {
                        i - 1
                    };
                    assert(index@[i] == before[at]);
                    if m < k {
                        assert(done[m].symbol != done[before[at] as int].symbol);
                    }
                }
                assert forall|m: int| 0 <= m < next.len() implies #[trigger] indexes(
                    next,
                    index@,
                    next[m].symbol,
                ) by {
                    if m < k {
                        assert(indexes(done, before, done[m].symbol));
                        let i = choose|i: int|
                            0 <= i < before.len() && done[#[trigger] before[i] as int].symbol
                                == done[m].symbol;
                        let at = if i < p {
                            i
                        } else {
                            i + 1
                        };
                        assert(index@[at] == before[i]);
                        assert(next[index@[at] as int].symbol == next[m].symbol);
                    } else {
                        assert(next[index@[p as int] as int].symbol == next[m].symbol);
                    }
                }
            }
        }
        k = k + 1;
    }
    assert(enums@.subrange(0, enums@.len() as int) =~= enums@);
    index
}

/// An order of some enums, by place: every one once, and behind each one
/// that it holds by value, unless that one depends on it in turn.
pub open spec fn dependency_ordered(c: &EmitContext, enums: Seq<IREnumDecl>, r: Seq<usize>) -> bool {
    &&& r.no_duplicates()
    &&& forall|v: usize| #[trigger] r.contains(v) <==> v < enums.len()
    &&& ordered(enum_graph(c, enums), r)
}

/// Where symbols are numbered in the order of their names, the enums are
/// taken in the order of their names.
pub proof fn index_goes_by_name(c: &EmitContext, index: Seq<usize>, i: int, j: int)
    requires
        c.named_in_order(),
        is_index(c.enums@, index),
        forall|k: int| 0 <= k < c.enums@.len() ==> (#[trigger] c.enums@[k]).symbol.0 < c.symbols@.len(),
        0 <= i < j < index.len(),
    ensures
        precedes(
            c.mangled(c.enums@[index[i] as int].symbol),
            c.mangled(c.enums@[index[j] as int].symbol),
        ),
{
    let (a, b) = (index[i] as int, index[j] as int);
    assert(c.enums@[a].symbol.0 < c.enums@[b].symbol.0);
    assert(c.enums@[a].symbol.0 < c.symbols@.len() && c.enums@[b].symbol.0 < c.symbols@.len());
}

/// `r` is the declared enums in dependency order: the symbols decide
/// wherever the dependencies do not.
pub open spec fn in_dependency_order(c: &EmitContext, index: Seq<usize>, r: Seq<usize>) -> bool {
    let enums = indexed(c.enums@, index);
    &&& is_index(c.enums@, index)
    &&& r == places(index, dependency_order(enum_graph(c, enums)))
    &&& dependency_ordered(c, enums, dependency_order(enum_graph(c, enums)))
}

/// Orders the declared enums so that each one comes behind those it holds
/// by value.
pub fn enums_in_dependency_order(c: &EmitContext) -> (r: Vec<usize>)
    requires
        c.enums@.len() < usize::MAX,
    ensures
        exists|index: Seq<usize>| #[trigger] in_dependency_order(c, index, r@),
{
    let index = build_enum_index(&c.enums);
    let ghost enums = indexed(c.enums@, index@);
    let n: usize = index.len();
    let mut deps: Vec<Vec<usize>> = Vec::new();
    let mut i: usize = 0;
    while i < n
        invariant
            i <= n,
            n == index@.len(),
            is_index(c.enums@, index@),
            enums == indexed(c.enums@, index@),
            deps@.len() == i,
            forall|k: int| 0 <= k < i ==> (#[trigger] deps@[k])@ == referred(c, enums, k, n as nat),
        decreases n - i,
    {
        assert(enums[i as int] == c.enums@[index@[i as int] as int]);
        let roots = slots_of_variants(&c.enums[index[i]]);
        let held = inline_types(c, &roots);
        let mut row: Vec<usize> = Vec::new();
        assert(row@ =~= Seq::empty());
        let mut j: usize = 0;
        while j < n
            invariant
                i < n,
                j <= n,
                n == index@.len(),
                is_index(c.enums@, index@),
                enums == indexed(c.enums@, index@),
                roots@ == variant_slots(enums[i as int].variants@, enums[i as int].variants@.len()),
                forall|ty: IRType| #[trigger] held@.contains(ty) <==> some_holds(c, roots@, ty),
                row@ == referred(c, enums, i as int, j as nat),
            decreases n - j,
        {
            assert(enums[j as int] == c.enums@[index@[j as int] as int]);
            if listed(&held, IRType::Enum(c.enums[index[j]].symbol)) {
                row.push(j);
            }
            j = j + 1;
        }
        deps.push(row);
        i = i + 1;
    }
    assert(graph(deps@) =~= enum_graph(c, enums));
    assert(well_formed(graph(deps@))) by {
        assert forall|v: int, k: int|
            0 <= v < graph(deps@).len() && 0 <= k < graph(deps@)[v].len() implies #[trigger] graph(
            deps@,
        )[v][k] < graph(deps@).len() by {
            referred_are_places(c, enums, v, n as nat);
        }
    }
    let ordering = order(&deps);
    let mut out: Vec<usize> = Vec::new();
    let mut k: usize = 0;
    while k < ordering.len()
        invariant
            k <= ordering.len(),
            forall|v: usize| #[trigger] ordering@.contains(v) <==> v < index@.len(),
            out@ == places(index@, ordering@).subrange(0, k as int),
        decreases ordering.len() - k,
    {
        assert(ordering@.contains(ordering@[k as int]));
        out.push(index[ordering[k]]);
        k = k + 1;
        assert(out@ =~= places(index@, ordering@).subrange(0, k as int));
    }
    assert(out@ =~= places(index@, ordering@));
    assert(in_dependency_order(c, index@, out@));
    out
}

/// An enum comes behind every enum that it holds by value, unless the two
/// depend on each other. Enums are named by their place in the index.
pub proof fn held_enums_come_first(c: &EmitContext, index: Seq<usize>, r: Seq<usize>, e: usize, d: usize)
    requires
        index.len() <= usize::MAX,
        in_dependency_order(c, index, r),
        e < index.len(),
        d < index.len(),
        refers(c, c.enums@[index[e as int] as int], c.enums@[index[d as int] as int].symbol),
        !depends(enum_graph(c, indexed(c.enums@, index)), d, e),
    ensures
        exists|i: int, j: int|
            0 <= i < j < r.len() && #[trigger] r[i] == index[d as int] && #[trigger] r[j]
                == index[e as int],
{
    let enums = indexed(c.enums@, index);
    let g = enum_graph(c, enums);
    let o = dependency_order(g);
    referred_are_places(c, enums, e as int, enums.len());
    assert(g[e as int].contains(d));
    assert(o.contains(e));
    let j = choose|j: int| 0 <= j < o.len() && o[j] == e;
    assert(g[o[j] as int].contains(d));
    let before = o.subrange(0, j);
    assert(before.contains(d));
    let i = choose|i: int| 0 <= i < before.len() && before[i] == d;
    assert(o[i] == d);
    assert(r[i] == index[d as int] && r[j] == index[e as int]);
}

/// Declarations in the order of their symbols, each symbol once.
spec fn sorted(enums: Seq<IREnumDecl>) -> bool {
    forall|i: int, j: int|
        0 <= i < j < enums.len() ==> (#[trigger] enums[i]).symbol.0 < (#[trigger] enums[j]).symbol.0
}

/// Sorted declarations that are the same are in the same order.
proof fn sorted_are_same(a: Seq<IREnumDecl>, b: Seq<IREnumDecl>)
    requires
        sorted(a),
        sorted(b),
        forall|e: IREnumDecl| #[trigger] a.contains(e) <==> b.contains(e),
    ensures
        a == b,
    decreases a.len(),
{
    if a.len() == 0 {
        if b.len() > 0 {
            assert(b.contains(b[0]));
            assert(a.contains(b[0]));
        }
        assert(a =~= b);
    } else {
        let last = a.last();
        assert(a.contains(last));
        assert(b.contains(last));
        let k = choose|k: int| 0 <= k < b.len() && b[k] == last;
        assert(b.contains(b.last()));
        assert(a.contains(b.last()));
        let m = choose|m: int| 0 <= m < a.len() && a[m] == b.last();
        assert(k == b.len() - 1);
        assert(b[b.len() - 1] == last);
        let (x, y) = (a.drop_last(), b.drop_last());
        assert forall|e: IREnumDecl| #[trigger] x.contains(e) <==> y.contains(e) by {
            if x.contains(e) {
                let n = choose|n: int| 0 <= n < x.len() && x[n] == e;
                assert(a[n] == e);
                assert(a.contains(e));
                let w = choose|w: int| 0 <= w < b.len() && b[w] == e;
                assert(w < b.len() - 1);
                assert(y[w] == e);
            }
            if y.contains(e) {
                let n = choose|n: int| 0 <= n < y.len() && y[n] == e;
                assert(b[n] == e);
                assert(b[n].symbol.0 < b[b.len() - 1].symbol.0);
                assert(b.contains(e));
                assert(a.contains(e));
                let w = choose|w: int| 0 <= w < a.len() && a[w] == e;
                assert(w < a.len() - 1);
                assert(x[w] == e);
            }
        }
        sorted_are_same(x, y);
        assert(a =~= x.push(last));
        assert(b =~= y.push(last));
    }
}

/// No symbol is declared twice.
pub open spec fn declared_once(enums: Seq<IREnumDecl>) -> bool {
    forall|i: int, j: int|
        0 <= i < enums.len() && 0 <= j < enums.len() && (#[trigger] enums[i]).symbol
            == (#[trigger] enums[j]).symbol ==> i == j
}

/// Two sets of tables hold the same declarations, in whatever order.
pub open spec fn same_declarations(c: &EmitContext, d: &EmitContext) -> bool {
    &&& declared_once(c.enums@)
    &&& declared_once(d.enums@)
    &&& forall|e: IREnumDecl| #[trigger] c.enums@.contains(e) <==> d.enums@.contains(e)
    &&& forall|ty: IRType| #[trigger] inline_parts(c, ty) == inline_parts(d, ty)
}

/// The symbols of some enums.
pub open spec fn symbols_at(c: &EmitContext, r: Seq<usize>) -> Seq<IRSymbol> {
    Seq::new(r.len(), |i: int| c.enums@[r[i] as int].symbol)
}

/// An index of declarations that are there once holds exactly them.
proof fn index_holds_all(enums: Seq<IREnumDecl>, index: Seq<usize>)
    requires
        is_index(enums, index),
        declared_once(enums),
    ensures
        sorted(indexed(enums, index)),
        forall|e: IREnumDecl| #[trigger] indexed(enums, index).contains(e) <==> enums.contains(e),
{
    let all = indexed(enums, index);
    assert forall|e: IREnumDecl| #[trigger] all.contains(e) <==> enums.contains(e) by {
        if all.contains(e) {
            let i = choose|i: int| 0 <= i < all.len() && all[i] == e;
            assert(enums[index[i] as int] == e);
        }
        if enums.contains(e) {
            let k = choose|k: int| 0 <= k < enums.len() && enums[k] == e;
            assert(indexes(enums, index, enums[k].symbol));
            let i = choose|i: int|
                0 <= i < index.len() && enums[#[trigger] index[i] as int].symbol == e.symbol;
            assert(enums[index[i] as int].symbol == enums[k].symbol);
            assert(all[i] == e);
        }
    }
    assert forall|i: int, j: int| 0 <= i < j < all.len() implies (#[trigger] all[i]).symbol.0 < (
    #[trigger] all[j]).symbol.0 by {
        assert(enums[index[i] as int].symbol.0 < enums[index[j] as int].symbol.0);
    }
}

/// What an enum holds rests on the declarations, not on their order.
proof fn refers_alike(c: &EmitContext, d: &EmitContext, decl: IREnumDecl, target: IRSymbol)
    requires
        forall|ty: IRType| #[trigger] inline_parts(c, ty) == inline_parts(d, ty),
    ensures
        refers(c, decl, target) == refers(d, decl, target),
{
    assert forall|walk: Seq<IRType>| #[trigger] inline_walk(c, walk) == inline_walk(d, walk) by {
        if inline_walk(c, walk) {
            assert forall|i: int| 0 <= i < walk.len() - 1 implies inline_parts(d, walk[i]).contains(
                #[trigger] walk[i + 1],
            ) by {
                assert(inline_parts(c, walk[i]) == inline_parts(d, walk[i]));
            }
        }
        if inline_walk(d, walk) {
            assert forall|i: int| 0 <= i < walk.len() - 1 implies inline_parts(c, walk[i]).contains(
                #[trigger] walk[i + 1],
            ) by {
                assert(inline_parts(c, walk[i]) == inline_parts(d, walk[i]));
            }
        }
    }
    let roots = variant_slots(decl.variants@, decl.variants@.len());
    let part = IRType::Enum(target);
    assert forall|i: int| 0 <= i < roots.len() implies holds_inline(c, #[trigger] roots[i], part)
        == holds_inline(d, roots[i], part) by {
        if holds_inline(c, roots[i], part) {
            let walk = choose|walk: Seq<IRType>| #[trigger]
                inline_walk(c, walk) && walk[0] == roots[i] && walk.last() == part;
            assert(inline_walk(d, walk));
        }
        if holds_inline(d, roots[i], part) {
            let walk = choose|walk: Seq<IRType>| #[trigger]
                inline_walk(d, walk) && walk[0] == roots[i] && walk.last() == part;
            assert(inline_walk(c, walk));
        }
    }
}

/// So do its dependency lists.
proof fn referred_alike(c: &EmitContext, d: &EmitContext, enums: Seq<IREnumDecl>, i: int, k: nat)
    requires
        forall|ty: IRType| #[trigger] inline_parts(c, ty) == inline_parts(d, ty),
    ensures
        referred(c, enums, i, k) == referred(d, enums, i, k),
    decreases k,
{
    if k > 0 {
        referred_alike(c, d, enums, i, (k - 1) as nat);
        refers_alike(c, d, enums[i], enums[k - 1].symbol);
    }
}

/// The order of the enums, symbol by symbol, does not rest on the order in
/// which they, or the types that hold them, are declared.
pub proof fn reordering_changes_nothing(
    c: &EmitContext,
    d: &EmitContext,
    index: Seq<usize>,
    other: Seq<usize>,
    r: Seq<usize>,
    q: Seq<usize>,
)
    requires
        same_declarations(c, d),
        in_dependency_order(c, index, r),
        in_dependency_order(d, other, q),
    ensures
        symbols_at(c, r) == symbols_at(d, q),
{
    let a = indexed(c.enums@, index);
    let b = indexed(d.enums@, other);
    index_holds_all(c.enums@, index);
    index_holds_all(d.enums@, other);
    assert forall|e: IREnumDecl| #[trigger] a.contains(e) <==> b.contains(e) by {
        assert(c.enums@.contains(e) <==> d.enums@.contains(e));
    }
    sorted_are_same(a, b);
    assert(enum_graph(c, a) =~= enum_graph(d, a)) by {
        assert forall|i: int| 0 <= i < a.len() implies #[trigger] enum_graph(c, a)[i] == enum_graph(d, a)[i] by {
            referred_alike(c, d, a, i, a.len());
        }
    }
    let o = dependency_order(enum_graph(c, a));
    assert forall|i: int| 0 <= i < o.len() implies #[trigger] symbols_at(c, r)[i] == symbols_at(d, q)[i] by {
        assert(o.contains(o[i]));
        assert(c.enums@[r[i] as int] == a[o[i] as int]);
        assert(d.enums@[q[i] as int] == b[o[i] as int]);
    }
    assert(symbols_at(c, r) =~= symbols_at(d, q));
}

} // verus!
