//! What the value of an enum variant holds.
//!
//! A variant lies in a value of its enum: the tag is the first byte, the
//! payload fields lie behind it. Building a variant gives a value that
//! holds the tag and the fields, and reading one gives them back.

use vstd::prelude::*;
use crate::ctx::EmitContext;
use crate::emit::enums::{boxed_code, enum_value_code, write_fields_code};
use crate::ir::{IRSymbol, IRType, IRVariantTag};
use crate::llvm::{num, Code, Entry, Inst, LType, Val};
use crate::memory::{
    address_in_range, byte, byte_limit, in_memory, number, number_of_bytes, store_is_read_back,
    store_spares_numbers, store_spares_others, stored, stored_number, Memory,
};
use crate::semantics::{
    addresses, arrives, byte_count, bytes_of, ends, field_at, inserted, loads, read, stores, Machine,
    Outside,
};
use crate::types::value_type;

verus! {

/// Where a payload field lies in a value of the enum.
pub open spec fn payload_at(o: Outside, ty: IRSymbol, tag: u8, k: int) -> int {
    (o.offsets)(LType::Variant(ty, tag), 2) + (o.offsets)(LType::Payload(ty, tag), k as usize)
}

/// How many bytes a payload field takes.
pub open spec fn payload_size(c: &EmitContext, o: Outside, ty: IRSymbol, tag: u8, k: int) -> nat {
    byte_count(o, value_type(c.payload(ty, tag)[k]))
}

/// A variant lies in a value of its enum: its tag is the first byte, and
/// its fields lie behind it, apart. No field is boxed.
pub open spec fn lies_in(c: &EmitContext, o: Outside, ty: IRSymbol, tag: u8) -> bool {
    let n = byte_count(o, LType::Enum(ty));
    let slots = c.payload(ty, tag);
    &&& 1 <= n <= u64::MAX
    &&& (o.offsets)(LType::Variant(ty, tag), 0) == 0
    &&& 0 <= (o.offsets)(LType::Variant(ty, tag), 2) <= n
    &&& slots.len() <= usize::MAX
    &&& forall|k: int|
        0 <= k < slots.len() ==> {
            &&& 1 <= #[trigger] payload_at(o, ty, tag, k)
            &&& 0 <= (o.offsets)(LType::Payload(ty, tag), k as usize)
            &&& payload_at(o, ty, tag, k) + payload_size(c, o, ty, tag, k) <= n
            &&& !(slots[k] is Indirect)
        }
    &&& forall|j: int, k: int|
        0 <= j < k < slots.len() ==> #[trigger] payload_at(o, ty, tag, j) + payload_size(
            c,
            o,
            ty,
            tag,
            j,
        ) <= #[trigger] payload_at(o, ty, tag, k)
}

/// A number that is part of an enum value.
pub open spec fn enum_part(o: Outside, ty: IRSymbol, x: int, at: int, n: nat) -> int {
    number(bytes_of(x, byte_count(o, LType::Enum(ty))), at, n)
}

/// A value of an enum is the variant with this tag, carrying these words.
pub open spec fn is_variant(
    c: &EmitContext,
    o: Outside,
    ty: IRSymbol,
    x: int,
    tag: u8,
    carried: Seq<int>,
) -> bool {
    &&& enum_part(o, ty, x, 0, 1) == tag
    &&& carried.len() == c.payload(ty, tag).len()
    &&& forall|k: int|
        0 <= k < carried.len() ==> enum_part(
            o,
            ty,
            x,
            #[trigger] payload_at(o, ty, tag, k),
            payload_size(c, o, ty, tag, k),
        ) == carried[k]
}

/// A value of an enum is one variant only.
pub proof fn variants_are_told_apart(
    c: &EmitContext,
    o: Outside,
    ty: IRSymbol,
    x: int,
    a: u8,
    xs: Seq<int>,
    b: u8,
    ys: Seq<int>,
)
    requires
        is_variant(c, o, ty, x, a, xs),
        is_variant(c, o, ty, x, b, ys),
    ensures
        a == b,
        xs == ys,
{
    assert forall|k: int| 0 <= k < xs.len() implies xs[k] == ys[k] by {
        let at = payload_at(o, ty, a, k);
        assert(enum_part(o, ty, x, at, payload_size(c, o, ty, a, k)) == xs[k]);
        assert(enum_part(o, ty, x, at, payload_size(c, o, ty, b, k)) == ys[k]);
    }
    assert(xs =~= ys);
}

/// What lies in some bytes of memory lies in the number that they make up.
pub proof fn parts_of_number(memory: Memory, p: int, size: nat, at: int, n: nat)
    requires
        0 <= p,
        p + size <= u64::MAX,
        0 <= at,
        at + n <= size,
    ensures
        number(bytes_of(number(memory, p, size), size), at, n) == number(memory, p + at, n),
{
    let x = number(memory, p, size);
    let blank = Memory { bytes: Map::empty(), taken: Set::empty(), blocks: Map::empty() };
    assert forall|i: int| 0 <= i < n implies #[trigger] byte(bytes_of(x, size), at + i) == byte(
        memory,
        p + at + i,
    ) by {
        stored_number(blank, 0, memory, p, size, at + i);
    }
    number_of_bytes(bytes_of(x, size), at, memory, p + at, n);
}

/// What an enum value in memory is made of, its number is made of.
pub proof fn loaded_parts(o: Outside, ty: IRSymbol, memory: Memory, p: int, at: int, n: nat)
    requires
        0 <= p,
        p + byte_count(o, LType::Enum(ty)) <= u64::MAX,
        0 <= at,
        at + n <= byte_count(o, LType::Enum(ty)),
    ensures
        enum_part(o, ty, number(memory, p, byte_count(o, LType::Enum(ty))), at, n) == number(
            memory,
            p + at,
            n,
        ),
{
    parts_of_number(memory, p, byte_count(o, LType::Enum(ty)), at, n);
}

/// A field that is put into an aggregate is there, and what lies apart
/// from it stays.
pub proof fn field_is_put(o: Outside, ty: LType, x: int, part_ty: LType, v: int, k: usize, at: int, n: nat)
    requires
        ty != LType::Table,
        byte_count(o, ty) <= u64::MAX,
        0 <= (o.offsets)(ty, k),
        (o.offsets)(ty, k) + byte_count(o, part_ty) <= byte_count(o, ty),
        0 <= v < byte_limit(byte_count(o, part_ty)),
        0 <= at,
        at + n <= byte_count(o, ty),
        (at == (o.offsets)(ty, k) && n == byte_count(o, part_ty)) || at + n <= (o.offsets)(ty, k)
            || (o.offsets)(ty, k) + byte_count(o, part_ty) <= at,
    ensures
        ({
            let y = inserted(o, ty, x, part_ty, v, k);
            let size = byte_count(o, ty);
            &&& 0 <= y < byte_limit(size)
            &&& number(bytes_of(y, size), at, n) == if at == (o.offsets)(ty, k) && n == byte_count(
                o,
                part_ty,
            ) {
                v
            } else {
                number(bytes_of(x, size), at, n)
            }
        }),
{
    let size = byte_count(o, ty);
    let p = (o.offsets)(ty, k);
    let m = byte_count(o, part_ty);
    let was = bytes_of(x, size);
    let now = stored(was, p, v, m);
    crate::memory::number_and_last_byte(now, 0, size);
    parts_of_number(now, 0, size, at, n);
    if at == p && n == m {
        store_is_read_back(was, p, v, m);
    } else {
        store_spares_numbers(was, p, v, m, at, n);
    }
}

/// The number that was stored, as the bytes make it up.
pub proof fn stored_parts(memory: Memory, p: int, x: int, size: nat, at: int, n: nat)
    requires
        0 <= p,
        p + size <= u64::MAX,
        0 <= x < byte_limit(size),
        0 <= at,
        at + n <= size,
    ensures
        number(stored(memory, p, x, size), p + at, n) == number(bytes_of(x, size), at, n),
{
    store_is_read_back(memory, p, x, size);
    parts_of_number(stored(memory, p, x, size), p, size, at, n);
}

/// An operand that is known before the `n`-th instruction.
pub open spec fn known_by(v: Val, n: int) -> bool {
    v matches Val::At(k) ==> k < n
}

/// The results before the `n`-th instruction are the same.
pub open spec fn agree(a: Map<usize, int>, b: Map<usize, int>, n: int) -> bool {
    forall|k: usize| k < n ==> #[trigger] a[k] == b[k]
}

/// Memory is the same but for a range.
pub open spec fn same_but(a: Memory, b: Memory, p: int, n: int) -> bool {
    &&& a.taken == b.taken
    &&& a.blocks == b.blocks
    &&& forall|q: int|
        0 <= q <= u64::MAX && !(p <= q < p + n) ==> #[trigger] byte(a, q) == byte(b, q)
}

/// How many instructions a variant value takes.
pub open spec fn variant_length(n: nat) -> nat {
    if n == 0 {
        3
    } else {
        2 * n + 4
    }
}

proof fn unboxed_stays(c: &EmitContext, s: Code, slots: Seq<IRType>, vals: Seq<Val>, k: nat)
    requires
        k <= vals.len(),
        k <= slots.len(),
        forall|j: int| 0 <= j < k ==> !(#[trigger] slots[j] is Indirect),
    ensures
        boxed_code(c, s, slots, vals, k) == (s, vals.subrange(0, k as int)),
    decreases k,
{
    if k > 0 {
        unboxed_stays(c, s, slots, vals, (k - 1) as nat);
        assert(vals.subrange(0, k as int) =~= vals.subrange(0, k - 1).push(vals[k - 1]));
    } else {
        assert(vals.subrange(0, 0) =~= Seq::empty());
    }
}

proof fn written_fields_stand(
    s: Code,
    payload_struct: LType,
    slots: Seq<IRType>,
    ptr: Val,
    vals: Seq<Val>,
    k: nat,
)
    requires
        s.log.len() + 2 * k <= usize::MAX,
        k <= vals.len(),
    ensures
        ({
            let t = write_fields_code(s, payload_struct, slots, ptr, vals, k);
            let n = s.log.len() as int;
            &&& t == Code { log: t.log, ..s }
            &&& t.log.len() == n + 2 * k
            &&& forall|i: int| 0 <= i < n ==> #[trigger] t.log[i] == s.log[i]
            &&& forall|j: int|
                0 <= j < k ==> #[trigger] t.log[n + 2 * j] == (Entry {
                    block: s.cur,
                    inst: Inst::Field(payload_struct, ptr, j as usize),
                })
            &&& forall|j: int|
                0 <= j < k ==> #[trigger] t.log[n + 2 * j + 1] == (Entry {
                    block: s.cur,
                    inst: Inst::Store(value_type(slots[j]), vals[j], Val::At((n + 2 * j) as usize)),
                })
        }),
    decreases k,
{
    if k > 0 {
        written_fields_stand(s, payload_struct, slots, ptr, vals, (k - 1) as nat);
    }
}

/// How many instructions a variant value takes, no field being boxed.
pub proof fn enum_value_length(c: &EmitContext, s: Code, ty: IRSymbol, tag: IRVariantTag, vals: Seq<Val>)
    requires
        vals.len() == c.payload(ty, tag.0).len(),
        forall|j: int| 0 <= j < vals.len() ==> !(#[trigger] c.payload(ty, tag.0)[j] is Indirect),
    ensures
        enum_value_code(c, s, ty, tag, vals).0.log.len() == s.log.len() + variant_length(vals.len()),
{
    let slot = s.sv(0);
    let slots = c.payload(ty, tag.0);
    let tagged = s.slot(LType::Enum(ty))
        .i(Inst::Field(LType::Variant(ty, tag.0), slot, 0))
        .i(Inst::Store(LType::I8, num(tag.0 as u64), s.v(0)));
    if vals.len() > 0 {
        unboxed_stays(c, tagged, slots, vals, vals.len());
        fields_length(
            tagged.i(Inst::Field(LType::Variant(ty, tag.0), slot, 2)),
            LType::Payload(ty, tag.0),
            slots,
            tagged.v(0),
            vals.subrange(0, vals.len() as int),
            vals.len(),
        );
    }
}

proof fn fields_length(s: Code, payload_struct: LType, slots: Seq<IRType>, ptr: Val, vals: Seq<Val>, k: nat)
    ensures
        write_fields_code(s, payload_struct, slots, ptr, vals, k).log.len() == s.log.len() + 2 * k,
    decreases k,
{
    if k > 0 {
        fields_length(s, payload_struct, slots, ptr, vals, (k - 1) as nat);
    }
}

/// What a variant value is made of.
pub proof fn enum_value_stands(
    c: &EmitContext,
    s: Code,
    ty: IRSymbol,
    tag: IRVariantTag,
    vals: Seq<Val>,
)
    requires
        vals.len() == c.payload(ty, tag.0).len(),
        s.log.len() + variant_length(vals.len()) <= usize::MAX,
        forall|j: int| 0 <= j < vals.len() ==> !(#[trigger] c.payload(ty, tag.0)[j] is Indirect),
    ensures
        ({
            let (t, v) = enum_value_code(c, s, ty, tag, vals);
            let slots = c.payload(ty, tag.0);
            let n = s.log.len() as int;
            let m = vals.len() as int;
            let is = |i: int, inst: Inst| t.log[i] == Entry { block: s.cur, inst: inst };
            let slot = s.sv(0);
            &&& t == Code { log: t.log, slots: s.slots.push(LType::Enum(ty)), ..s }
            &&& t.log.len() == n + variant_length(vals.len())
            &&& v == Val::At((t.log.len() - 1) as usize)
            &&& forall|i: int| 0 <= i < n ==> #[trigger] t.log[i] == s.log[i]
            &&& forall|i: int| n <= i < t.log.len() ==> (#[trigger] t.log[i]).block == s.cur
            &&& is(n, Inst::Field(LType::Variant(ty, tag.0), slot, 0))
            &&& is(n + 1, Inst::Store(LType::I8, num(tag.0 as u64), Val::At(n as usize)))
            &&& is(t.log.len() - 1, Inst::Load(LType::Enum(ty), slot))
            &&& m > 0 ==> {
                &&& is(n + 2, Inst::Field(LType::Variant(ty, tag.0), slot, 2))
                &&& forall|j: int|
                    0 <= j < m ==> #[trigger] t.log[n + 3 + 2 * j] == (Entry {
                        block: s.cur,
                        inst: Inst::Field(
                            LType::Payload(ty, tag.0),
                            Val::At((n + 2) as usize),
                            j as usize,
                        ),
                    })
                &&& forall|j: int|
                    0 <= j < m ==> #[trigger] t.log[n + 3 + 2 * j + 1] == (Entry {
                        block: s.cur,
                        inst: Inst::Store(
                            value_type(slots[j]),
                            vals[j],
                            Val::At((n + 3 + 2 * j) as usize),
                        ),
                    })
            }
        }),
{
    let slot = s.sv(0);
    let slots = c.payload(ty, tag.0);
    let tagged = s.slot(LType::Enum(ty))
        .i(Inst::Field(LType::Variant(ty, tag.0), slot, 0))
        .i(Inst::Store(LType::I8, num(tag.0 as u64), s.v(0)));
    let (t, v) = enum_value_code(c, s, ty, tag, vals);
    if vals.len() > 0 {
        unboxed_stays(c, tagged, slots, vals, vals.len());
        assert(vals.subrange(0, vals.len() as int) =~= vals);
        let field = tagged.i(Inst::Field(LType::Variant(ty, tag.0), slot, 2));
        written_fields_stand(field, LType::Payload(ty, tag.0), slots, tagged.v(0), vals, vals.len());
        let w = write_fields_code(
            field,
            LType::Payload(ty, tag.0),
            slots,
            tagged.v(0),
            vals,
            vals.len(),
        );
        assert(t == w.i(Inst::Load(LType::Enum(ty), slot)));
        let n = s.log.len() as int;
        assert forall|i: int| n <= i < t.log.len() implies (#[trigger] t.log[i]).block == s.cur by {
            if n + 3 <= i < t.log.len() - 1 {
                let j = (i - n - 3) / 2;
                assert(i == n + 3 + 2 * j || i == n + 3 + 2 * j + 1);
                assert(w.log[n + 3 + 2 * j].block == s.cur);
                assert(w.log[n + 3 + 2 * j + 1].block == s.cur);
            }
        }
        assert forall|j: int| 0 <= j < vals.len() implies #[trigger] t.log[n + 3 + 2 * j] == (Entry {
            block: s.cur,
            inst: Inst::Field(LType::Payload(ty, tag.0), Val::At((n + 2) as usize), j as usize),
        }) by {
            assert(t.log[n + 3 + 2 * j] == w.log[n + 3 + 2 * j]);
        }
        assert forall|j: int| 0 <= j < vals.len() implies #[trigger] t.log[n + 3 + 2 * j + 1] == (
        Entry {
            block: s.cur,
            inst: Inst::Store(value_type(slots[j]), vals[j], Val::At((n + 3 + 2 * j) as usize)),
        }) by {
            assert(t.log[n + 3 + 2 * j + 1] == w.log[n + 3 + 2 * j + 1]);
        }
    }
}

/// A variant value is about to be built: its code stands here, its stack
/// slot is an address, and what it is to carry fits.
pub open spec fn builds(
    c: &EmitContext,
    code: Code,
    o: Outside,
    s: Code,
    m: Machine,
    ty: IRSymbol,
    tag: IRVariantTag,
    vals: Seq<Val>,
) -> bool {
    let t = enum_value_code(c, s, ty, tag, vals).0;
    let n = s.log.len() as int;
    &&& vals.len() == c.payload(ty, tag.0).len()
    &&& lies_in(c, o, ty, tag.0)
    &&& n + variant_length(vals.len()) < code.log.len() <= usize::MAX
    &&& forall|i: int| 0 <= i < t.log.len() ==> #[trigger] code.log[i] == t.log[i]
    &&& code.log[t.log.len() as int].block == s.cur
    &&& m.at == n
    &&& m.returned is None
    &&& in_memory((o.values)(s.sv(0)), byte_count(o, LType::Enum(ty)) as int)
    &&& forall|k: int|
        0 <= k < vals.len() ==> {
            &&& known_by(#[trigger] vals[k], n)
            &&& 0 <= read(o, m.results, vals[k]) < byte_limit(payload_size(c, o, ty, tag.0, k))
        }
}

/// What some operands stand for.
pub open spec fn operands(o: Outside, results: Map<usize, int>, vals: Seq<Val>) -> Seq<int> {
    Seq::new(vals.len(), |k: int| read(o, results, vals[k]))
}

/// A variant value is being built: the tag and the first `k` fields stand
/// in its slot.
spec fn built(
    c: &EmitContext,
    o: Outside,
    s: Code,
    m: Machine,
    ty: IRSymbol,
    tag: IRVariantTag,
    vals: Seq<Val>,
    k: int,
    l: Machine,
) -> bool {
    let p = (o.values)(s.sv(0));
    let n = byte_count(o, LType::Enum(ty)) as int;
    &&& l.returned is None
    &&& l.from == m.from
    &&& l.entered == m.entered
    &&& l.parts == m.parts
    &&& agree(l.results, m.results, s.log.len() as int)
    &&& same_but(l.memory, m.memory, p, n)
    &&& number(l.memory, p, 1) == tag.0
    &&& forall|j: int|
        0 <= j < k ==> number(
            l.memory,
            p + #[trigger] payload_at(o, ty, tag.0, j),
            payload_size(c, o, ty, tag.0, j),
        ) == read(o, m.results, vals[j])
}

proof fn tag_is_written(
    c: &EmitContext,
    code: Code,
    o: Outside,
    s: Code,
    m: Machine,
    ty: IRSymbol,
    tag: IRVariantTag,
    vals: Seq<Val>,
) -> (l: Machine)
    requires
        builds(c, code, o, s, m, ty, tag, vals),
    ensures
        m.leads_to(code, o, l),
        built(c, o, s, m, ty, tag, vals, 0, l),
        l.at == s.log.len() + 2,
{
    let n = s.log.len() as int;
    let p = (o.values)(s.sv(0));
    let t = enum_value_code(c, s, ty, tag, vals).0;
    assert forall|j: int| 0 <= j < vals.len() implies !(#[trigger] c.payload(ty, tag.0)[j] is Indirect) by {
        assert(payload_at(o, ty, tag.0, j) >= 1);
    }
    enum_value_stands(c, s, ty, tag, vals);
    assert(code.log[n] == t.log[n] && code.log[n + 1] == t.log[n + 1] && code.log[n + 2].block == s.cur) by {
        if n + 2 < t.log.len() {
            assert(code.log[n + 2] == t.log[n + 2]);
        }
    }
    addresses(m, code, o, LType::Variant(ty, tag.0), s.sv(0), 0);
    let m1 = m.step(code, o);
    address_in_range(p);
    assert(read(o, m1.results, Val::At(n as usize)) == p);
    stores(m1, code, o, LType::I8, num(tag.0 as u64), Val::At(n as usize));
    let l = m1.step(code, o);
    assert(byte_limit(1) == 0x100) by {
        assert(byte_limit(0) == 1);
    }
    store_is_read_back(m1.memory, p, tag.0 as int, 1);
    assert forall|q: int|
        0 <= q <= u64::MAX && !(p <= q < p + byte_count(o, LType::Enum(ty))) implies #[trigger] byte(
        l.memory,
        q,
    ) == byte(m.memory, q) by {
        store_spares_others(m.memory, p, tag.0 as int, 1, q);
    }
    store_spares_others(
        m.memory,
        p,
        tag.0 as int,
        1,
        if p == 0 {
            1
        } else {
            p - 1
        },
    );
    l
}

proof fn field_is_written(
    c: &EmitContext,
    code: Code,
    o: Outside,
    s: Code,
    m: Machine,
    ty: IRSymbol,
    tag: IRVariantTag,
    vals: Seq<Val>,
    k: int,
    m0: Machine,
) -> (l: Machine)
    requires
        builds(c, code, o, s, m, ty, tag, vals),
        0 <= k < vals.len(),
        built(c, o, s, m, ty, tag, vals, k, m0),
        m0.at == s.log.len() + 3 + 2 * k,
        m0.results[(s.log.len() + 2) as usize] == field_at(
            o,
            LType::Variant(ty, tag.0),
            (o.values)(s.sv(0)),
            2,
        ),
    ensures
        m0.leads_to(code, o, l),
        built(c, o, s, m, ty, tag, vals, k + 1, l),
        l.at == s.log.len() + 3 + 2 * (k + 1),
        l.results[(s.log.len() + 2) as usize] == m0.results[(s.log.len() + 2) as usize],
{
    let n = s.log.len() as int;
    let p = (o.values)(s.sv(0));
    let size = byte_count(o, LType::Enum(ty)) as int;
    let t = enum_value_code(c, s, ty, tag, vals).0;
    assert forall|j: int| 0 <= j < vals.len() implies !(#[trigger] c.payload(ty, tag.0)[j] is Indirect) by {
        assert(payload_at(o, ty, tag.0, j) >= 1);
    }
    enum_value_stands(c, s, ty, tag, vals);
    let i = n + 3 + 2 * k;
    assert(code.log[i] == t.log[n + 3 + 2 * k]);
    assert(code.log[i + 1] == t.log[n + 3 + 2 * k + 1]);
    assert(code.log[i + 2].block == s.cur) by {
        assert(code.log[i + 2] == t.log[i + 2]);
    }
    let at = payload_at(o, ty, tag.0, k);
    let wide = payload_size(c, o, ty, tag.0, k);
    addresses(m0, code, o, LType::Payload(ty, tag.0), Val::At((n + 2) as usize), k as usize);
    let m1 = m0.step(code, o);
    address_in_range(p + (o.offsets)(LType::Variant(ty, tag.0), 2));
    address_in_range(p + at);
    assert(read(o, m1.results, Val::At(i as usize)) == p + at);
    assert(known_by(vals[k], n));
    let x = read(o, m.results, vals[k]);
    assert(read(o, m1.results, vals[k]) == x) by {
        if let Val::At(j) = vals[k] {
            assert(m0.results[j] == m.results[j]);
        }
    }
    stores(m1, code, o, value_type(c.payload(ty, tag.0)[k]), vals[k], Val::At(i as usize));
    let l = m1.step(code, o);
    assert(l.memory == stored(m0.memory, p + at, x, wide));
    store_is_read_back(m0.memory, p + at, x, wide);
    store_spares_numbers(m0.memory, p + at, x, wide, p, 1);
    assert forall|j: int| 0 <= j < k + 1 implies number(
        l.memory,
        p + #[trigger] payload_at(o, ty, tag.0, j),
        payload_size(c, o, ty, tag.0, j),
    ) == read(o, m.results, vals[j]) by {
        if j < k {
            store_spares_numbers(
                m0.memory,
                p + at,
                x,
                wide,
                p + payload_at(o, ty, tag.0, j),
                payload_size(c, o, ty, tag.0, j),
            );
        }
    }
    assert forall|q: int| 0 <= q <= u64::MAX && !(p <= q < p + size) implies #[trigger] byte(
        l.memory,
        q,
    ) == byte(m.memory, q) by {
        store_spares_others(m0.memory, p + at, x, wide, q);
    }
    store_spares_others(m0.memory, p + at, x, wide, p);
    assert forall|j: usize| j < n implies #[trigger] l.results[j] == m.results[j] by {
        assert(m0.results[j] == m.results[j]);
    }
    l
}

proof fn fields_are_written(
    c: &EmitContext,
    code: Code,
    o: Outside,
    s: Code,
    m: Machine,
    ty: IRSymbol,
    tag: IRVariantTag,
    vals: Seq<Val>,
    k: int,
    m0: Machine,
) -> (l: Machine)
    requires
        builds(c, code, o, s, m, ty, tag, vals),
        0 <= k <= vals.len(),
        built(c, o, s, m, ty, tag, vals, k, m0),
        m0.at == s.log.len() + 3 + 2 * k,
        m0.results[(s.log.len() + 2) as usize] == field_at(
            o,
            LType::Variant(ty, tag.0),
            (o.values)(s.sv(0)),
            2,
        ),
    ensures
        m0.leads_to(code, o, l),
        built(c, o, s, m, ty, tag, vals, vals.len() as int, l),
        l.at == s.log.len() + 3 + 2 * vals.len(),
    decreases vals.len() - k,
{
    if k < vals.len() {
        let m1 = field_is_written(c, code, o, s, m, ty, tag, vals, k, m0);
        fields_are_written(c, code, o, s, m, ty, tag, vals, k + 1, m1)
    } else {
        m0
    }
}

/// Building a variant gives a value that is this variant and carries what
/// the operands stand for. It writes to its stack slot alone.
pub proof fn enum_value_runs(
    c: &EmitContext,
    code: Code,
    o: Outside,
    s: Code,
    m: Machine,
    ty: IRSymbol,
    tag: IRVariantTag,
    vals: Seq<Val>,
) -> (l: Machine)
    requires
        builds(c, code, o, s, m, ty, tag, vals),
    ensures
        m.leads_to(code, o, l),
        ({
            let (t, v) = enum_value_code(c, s, ty, tag, vals);
            let x = read(o, l.results, v);
            &&& l.at == t.log.len()
            &&& l.returned is None
            &&& l.from == m.from
            &&& l.entered == m.entered
            &&& l.parts == m.parts
            &&& agree(l.results, m.results, s.log.len() as int)
            &&& same_but(
                l.memory,
                m.memory,
                (o.values)(s.sv(0)),
                byte_count(o, LType::Enum(ty)) as int,
            )
            &&& is_variant(c, o, ty, x, tag.0, operands(o, m.results, vals))
            &&& 0 <= x < byte_limit(byte_count(o, LType::Enum(ty)))
        }),
{
    let n = s.log.len() as int;
    let p = (o.values)(s.sv(0));
    let size = byte_count(o, LType::Enum(ty));
    let (t, v) = enum_value_code(c, s, ty, tag, vals);
    assert forall|j: int| 0 <= j < vals.len() implies !(#[trigger] c.payload(ty, tag.0)[j] is Indirect) by {
        assert(payload_at(o, ty, tag.0, j) >= 1);
    }
    enum_value_stands(c, s, ty, tag, vals);
    let m2 = tag_is_written(c, code, o, s, m, ty, tag, vals);
    let m3 = if vals.len() > 0 {
        assert(code.log[n + 2] == t.log[n + 2]);
        assert(code.log[n + 3] == t.log[n + 3 + 2 * 0]);
        addresses(m2, code, o, LType::Variant(ty, tag.0), s.sv(0), 2);
        let m3 = m2.step(code, o);
        assert forall|j: usize| j < n implies #[trigger] m3.results[j] == m.results[j] by {
            assert(m2.results[j] == m.results[j]);
        }
        fields_are_written(c, code, o, s, m, ty, tag, vals, 0, m3)
    } else {
        m2
    };
    let end = t.log.len() as int;
    assert(code.log[end - 1] == t.log[end - 1]);
    loads(m3, code, o, LType::Enum(ty), s.sv(0));
    let l = m3.step(code, o);
    let x = number(m3.memory, p, size);
    assert(read(o, l.results, v) == x);
    crate::memory::number_and_last_byte(m3.memory, p, size);
    loaded_parts(o, ty, m3.memory, p, 0, 1);
    let words = operands(o, m.results, vals);
    assert forall|k: int| 0 <= k < words.len() implies enum_part(
        o,
        ty,
        x,
        #[trigger] payload_at(o, ty, tag.0, k),
        payload_size(c, o, ty, tag.0, k),
    ) == words[k] by {
        loaded_parts(
            o,
            ty,
            m3.memory,
            p,
            payload_at(o, ty, tag.0, k),
            payload_size(c, o, ty, tag.0, k),
        );
    }
    assert forall|j: usize| j < n implies #[trigger] l.results[j] == m.results[j] by {
        assert(m3.results[j] == m.results[j]);
    }
    l
}

/// The function gave back this variant of an enum, carrying these words.
pub open spec fn gave_variant(c: &EmitContext, o: Outside, ty: IRSymbol, tag: u8, carried: Seq<int>) -> spec_fn(
    Machine,
) -> bool {
    |l: Machine| l.returned matches Some(x) && is_variant(c, o, ty, x, tag, carried)
}

/// A variant value that is returned is given back.
pub proof fn variant_is_returned(
    c: &EmitContext,
    code: Code,
    o: Outside,
    s: Code,
    m: Machine,
    ty: IRSymbol,
    tag: IRVariantTag,
    vals: Seq<Val>,
)
    requires
        builds(c, code, o, s, m, ty, tag, vals),
        ({
            let (t, v) = enum_value_code(c, s, ty, tag, vals);
            code.log[t.log.len() as int].inst == Inst::Ret(LType::Enum(ty), v)
        }),
    ensures
        m.comes_to(
            code,
            o,
            gave_variant(c, o, ty, tag.0, operands(o, m.results, vals)),
        ),
{
    let goal = gave_variant(c, o, ty, tag.0, operands(o, m.results, vals));
    let (t, v) = enum_value_code(c, s, ty, tag, vals);
    let l = enum_value_runs(c, code, o, s, m, ty, tag, vals);
    assert forall|j: int| 0 <= j < vals.len() implies !(#[trigger] c.payload(ty, tag.0)[j] is Indirect) by {
        assert(payload_at(o, ty, tag.0, j) >= 1);
    }
    enum_value_stands(c, s, ty, tag, vals);
    ends(l, code, o, LType::Enum(ty), v);
    arrives(l.step(code, o), code, o, goal);
}

} // verus!
