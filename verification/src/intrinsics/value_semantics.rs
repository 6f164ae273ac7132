//! Value semantics: a method that gives back a changed list or table
//! writes only to memory of its own, whatever the elements are. What it
//! was given is never changed in place.

use vstd::prelude::*;
use crate::ctx::EmitContext;
use crate::emit::enums::{boxed_code, enum_value_code, write_fields_code};

use crate::emit::indirect::box_value_code;
use crate::intrinsics::element::{
    acquire_in_slot_code, acquire_value_code, element_slot_code, heap_owner, loop_begin, loop_end,
    release_in_slot_code, walk_buffer_code, Walk,
};
use crate::intrinsics::hashtable::read::{OPTION_NONE, OPTION_SOME};
use crate::intrinsics::list::{
    append_code, clone_list_code, concat_code, copy_buffer_code, get_code, get_load_code, list_struct_code, pop_code,
    replace_at_code, ret_list_code, ret_pop_code, size_of, slice_code,
};
use crate::ir::{IRSymbol, IRType, IRVariantTag};
use crate::llvm::{
    a1, a3, call, gep, iadd, imul, isub, itest, num, start, Code, Inst, LType, Pred, Val,
};
use crate::ownership::{
    goes_on_from, goes_on_further, instruction_writes, made, made_stays, writes_its_own,
    writing_goes_on, written,
};
use crate::runtime::Rt;
use crate::types::value_type;

verus! {

/// One piece of code goes on from another and writes only where it owns.
pub open spec fn clean(t: Code, s: Code) -> bool {
    writes_its_own(t) && goes_on_from(t, s)
}

/// The address is one that the body has made.
pub open spec fn owns(s: Code, v: Val) -> bool {
    made(s.log, s.edges, v)
}

/// What was clean up to one point and from there on is clean.
pub proof fn clean_further(s: Code, t: Code, u: Code)
    requires
        clean(t, s),
        clean(u, t),
    ensures
        clean(u, s),
{
    goes_on_further(s, t, u);
}

/// Acquiring a value writes nothing.
pub proof fn acquire_value_is_clean(c: &EmitContext, s: Code, element: IRType, value: Val)
    requires
        writes_its_own(s),
    ensures
        clean(acquire_value_code(c, s, element, value).0, s),
{
    let t = acquire_value_code(c, s, element, value).0;
    assert(goes_on_from(t, s));
    writing_goes_on(s, t);
}

/// Acquiring what is in a slot writes at most to the slot.
pub proof fn acquire_in_slot_is_clean(c: &EmitContext, s: Code, element: IRType, slot: Val)
    requires
        writes_its_own(s),
        owns(s, slot),
    ensures
        clean(acquire_in_slot_code(c, s, element, slot), s),
{
    let t = acquire_in_slot_code(c, s, element, slot);
    assert(goes_on_from(t, s));
    made_stays(s, t, slot);
    writing_goes_on(s, t);
}

/// Releasing what is in a slot writes nothing.
pub proof fn release_in_slot_is_clean(c: &EmitContext, s: Code, element: IRType, slot: Val)
    requires
        writes_its_own(s),
    ensures
        clean(release_in_slot_code(c, s, element, slot), s),
{
    let t = release_in_slot_code(c, s, element, slot);
    assert(goes_on_from(t, s));
    writing_goes_on(s, t);
}

/// A place in memory of one's own is one's own.
pub proof fn place_is_owned(s: Code, t: Code, p: Val, i: Val, at: nat)
    requires
        goes_on_from(t, s),
        owns(s, p),
        s.log.len() <= at < t.log.len() <= usize::MAX,
        t.log[at as int].inst == gep(p, i),
    ensures
        owns(t, Val::At(at as usize)),
{
    made_stays(s, t, p);
}

/// A walk over a buffer of one's own writes only there.
proof fn walk_buffer_is_clean(
    c: &EmitContext,
    s: Code,
    element: IRType,
    buf: Val,
    count: Val,
    size: Val,
)
    requires
        writes_its_own(s),
        owns(s, buf),
        s.room(32),
    ensures
        clean(walk_buffer_code(c, s, Walk::Acquire, element, buf, count, size), s),
        walk_buffer_code(c, s, Walk::Acquire, element, buf, count, size).log.len() <= s.log.len() + 15,
{
    if heap_owner(c, element) {
        let b = loop_begin(s, count);
        assert(goes_on_from(b, s));
        writing_goes_on(s, b);
        let e = element_slot_code(b, buf, s.v(2), size);
        assert(goes_on_from(e, b));
        goes_on_further(s, b, e);
        writing_goes_on(b, e);
        assert(e.log[b.log.len() as int + 1].inst == gep(buf, b.v(0)));
        place_is_owned(s, e, buf, b.v(0), b.log.len() + 1);
        acquire_in_slot_is_clean(c, e, element, b.v(1));
        let w = acquire_in_slot_code(c, e, element, b.v(1));
        clean_further(b, e, w);
        let end = loop_end(s, w);
        assert(goes_on_from(end, w));
        writing_goes_on(w, end);
        clean_further(b, w, end);
        clean_further(s, b, end);
    } else {
        assert(goes_on_from(s, s));
    }
}

/// Building a variant value writes only to slots and boxes of one's own.
pub proof fn enum_value_is_clean(
    c: &EmitContext,
    s: Code,
    ty: IRSymbol,
    tag: IRVariantTag,
    vals: Seq<Val>,
)
    requires
        writes_its_own(s),
        vals.len() <= 1,
        s.room(32),
    ensures
        clean(enum_value_code(c, s, ty, tag, vals).0, s),
        enum_value_code(c, s, ty, tag, vals).0.log.len() <= s.log.len() + 14,
{
    let slot = s.sv(0);
    let c1 = s.slot(LType::Enum(ty)).i(Inst::Field(LType::Variant(ty, tag.0), slot, 0));
    let tagged = c1.i(Inst::Store(LType::I8, num(tag.0 as u64), s.v(0)));
    assert(goes_on_from(tagged, s));
    assert(owns(tagged, slot));
    assert(owns(tagged, s.v(0)));
    writing_goes_on(s, tagged);
    let end = enum_value_code(c, s, ty, tag, vals).0;
    if vals.len() == 0 {
        assert(goes_on_from(end, tagged));
        writing_goes_on(tagged, end);
        clean_further(s, tagged, end);
    } else {
        let slots = c.payload(ty, tag.0);
        let (sb, boxed) = boxed_code(c, tagged, slots, vals, 1);
        boxing_is_clean(c, tagged, slots, vals);
        let f = sb.i(Inst::Field(LType::Variant(ty, tag.0), slot, 2));
        assert(goes_on_from(f, sb));
        writing_goes_on(sb, f);
        assert(owns(f, slot));
        assert(owns(f, sb.v(0)));
        let payload = LType::Payload(ty, tag.0);
        let w = write_fields_code(f, payload, slots, sb.v(0), boxed, 1);
        reveal_with_fuel(write_fields_code, 2);
        assert(goes_on_from(w, f));
        made_stays(f, w, sb.v(0));
        assert(owns(w, f.v(0)));
        writing_goes_on(f, w);
        assert(goes_on_from(end, w));
        writing_goes_on(w, end);
        clean_further(w, w, end);
        clean_further(f, w, end);
        clean_further(sb, f, end);
        clean_further(tagged, sb, end);
        clean_further(s, tagged, end);
    }
}

/// Boxing a value writes only to its box.
proof fn boxing_is_clean(c: &EmitContext, s: Code, slots: Seq<IRType>, vals: Seq<Val>)
    requires
        writes_its_own(s),
        vals.len() == 1,
        s.room(16),
    ensures
        clean(boxed_code(c, s, slots, vals, 1).0, s),
        boxed_code(c, s, slots, vals, 1).0.log.len() <= s.log.len() + 7,
{
    reveal_with_fuel(boxed_code, 2);
    let t = boxed_code(c, s, slots, vals, 1).0;
    assert(goes_on_from(t, s));
    match slots[0] {
        IRType::Indirect(inner) => {
            assert(t == box_value_code(c, s, c.node(inner), vals[0]));
            assert(owns(t, s.v(1)));
            assert(owns(t, s.v(3)));
            assert(owns(t, s.v(5)));
        },
        _ => {},
    }
    writing_goes_on(s, t);
}

/// Code that records something without writing.
pub proof fn reading_is_clean(s: Code, t: Code)
    requires
        writes_its_own(s),
        goes_on_from(t, s),
        forall|i: int|
            s.log.len() <= i < t.log.len() ==> written((#[trigger] t.log[i]).inst) is None,
    ensures
        clean(t, s),
{
    writing_goes_on(s, t);
}

/// Copying a buffer writes only to the copy.
proof fn copy_buffer_is_clean(
    c: &EmitContext,
    s: Code,
    element: IRType,
    src: Val,
    count: Val,
    cap: Val,
    size: Val,
)
    requires
        writes_its_own(s),
        s.room(48),
    ensures
        ({
            let t = copy_buffer_code(c, s, Walk::Acquire, element, src, count, cap, size);
            &&& clean(t, s)
            &&& owns(t, s.v(1))
            &&& t.log.len() <= s.log.len() + 19
        }),
{
    let b = s.i(imul(cap, size))
        .i(call(Rt::Malloc, a1(s.v(0))))
        .i(imul(count, size))
        .i(call(Rt::Memcpy, a3(s.v(1), src, s.v(2))));
    assert(goes_on_from(b, s));
    assert(owns(b, s.v(1)));
    writing_goes_on(s, b);
    walk_buffer_is_clean(c, b, element, s.v(1), count, size);
    let t = walk_buffer_code(c, b, Walk::Acquire, element, s.v(1), count, size);
    made_stays(b, t, s.v(1));
    clean_further(s, b, t);
}

/// Giving back a list writes nothing.
proof fn ret_list_is_clean(s: Code, buf: Val, len: Val)
    requires
        writes_its_own(s),
    ensures
        clean(ret_list_code(s, buf, len), s),
{
    reading_is_clean(s, ret_list_code(s, buf, len));
}

/// `List.append` writes only to memory of its own.
pub proof fn append_writes_its_own(c: &EmitContext, element: IRType)
    ensures
        writes_its_own(append_code(c, start(), element)),
{
    let s = start();
    let size = size_of(element);
    acquire_value_is_clean(c, s, element, Val::Param(1));
    let (a, item) = acquire_value_code(c, s, element, Val::Param(1));
    let e = a.i(Inst::Extract(LType::List, Val::Param(0), 0))
        .i(Inst::Extract(LType::List, Val::Param(0), 1))
        .i(iadd(a.v(1), num(1)));
    reading_is_clean(a, e);
    copy_buffer_is_clean(c, e, element, a.v(0), a.v(1), a.v(2), size);
    let b = copy_buffer_code(c, e, Walk::Acquire, element, a.v(0), a.v(1), a.v(2), size);
    let w = b.i(imul(a.v(1), size)).i(gep(e.v(1), b.v(0))).i(
        Inst::Store(value_type(element), item, b.v(1)),
    );
    assert(goes_on_from(w, b));
    place_is_owned(b, w, e.v(1), b.v(0), b.log.len() + 1);
    writing_goes_on(b, w);
    ret_list_is_clean(w, e.v(1), a.v(2));
}

/// Copying a list writes only to the copy.
proof fn clone_is_clean(c: &EmitContext, s: Code, element: IRType)
    requires
        writes_its_own(s),
        s.room(64),
    ensures
        clean(clone_list_code(c, s, element), s),
{
    let e = s.i(Inst::Extract(LType::List, Val::Param(0), 0)).i(
        Inst::Extract(LType::List, Val::Param(0), 1),
    );
    reading_is_clean(s, e);
    copy_buffer_is_clean(c, e, element, s.v(0), s.v(1), s.v(1), size_of(element));
    let b = copy_buffer_code(
        c,
        e,
        Walk::Acquire,
        element,
        s.v(0),
        s.v(1),
        s.v(1),
        size_of(element),
    );
    clean_further(s, e, b);
    ret_list_is_clean(b, e.v(1), s.v(1));
    clean_further(s, b, clone_list_code(c, s, element));
}

/// `List.from_list` writes only to memory of its own.
pub proof fn from_list_writes_its_own(c: &EmitContext, element: IRType)
    ensures
        writes_its_own(clone_list_code(c, start(), element)),
{
    clone_is_clean(c, start(), element);
}

/// `List.replace_at` writes only to memory of its own.
pub proof fn replace_at_writes_its_own(c: &EmitContext, element: IRType)
    ensures
        writes_its_own(replace_at_code(c, start(), element)),
{
    let s = start();
    let size = size_of(element);
    let e = s.word("in_bounds"@).word("done"@)
        .i(Inst::Extract(LType::List, Val::Param(0), 0))
        .i(Inst::Extract(LType::List, Val::Param(0), 1))
        .i(itest(Pred::Ult, Val::Param(1), s.v(1)))
        .i(Inst::CondBr(s.v(2), s.b(0), s.b(1)))
        .at(s.b(0));
    reading_is_clean(s, e);
    copy_buffer_is_clean(c, e, element, s.v(0), s.v(1), s.v(1), size);
    let b = copy_buffer_code(c, e, Walk::Acquire, element, s.v(0), s.v(1), s.v(1), size);
    let d = element_slot_code(b, e.v(1), Val::Param(1), size);
    reading_is_clean(b, d);
    place_is_owned(b, d, e.v(1), b.v(0), b.log.len() + 1);
    release_in_slot_is_clean(c, d, element, b.v(1));
    let r = release_in_slot_code(c, d, element, b.v(1));
    acquire_value_is_clean(c, r, element, Val::Param(2));
    let (a, value) = acquire_value_code(c, r, element, Val::Param(2));
    goes_on_further(d, r, a);
    made_stays(d, a, b.v(1));
    instruction_writes(a, Inst::Store(value_type(element), value, b.v(1)));
    let w = a.i(Inst::Store(value_type(element), value, b.v(1)));
    ret_list_is_clean(w, e.v(1), s.v(1));
    let g = ret_list_code(w, e.v(1), s.v(1)).at(s.b(1));
    assert(writes_its_own(g));
    clone_is_clean(c, g, element);
}

/// `List.slice` writes only to memory of its own.
pub proof fn slice_writes_its_own(c: &EmitContext, element: IRType)
    ensures
        writes_its_own(slice_code(c, start(), element)),
{
    let s = start();
    let size = size_of(element);
    let b = s.word("nonempty"@).word("empty"@)
        .i(Inst::Extract(LType::List, Val::Param(0), 0))
        .i(Inst::Extract(LType::List, Val::Param(0), 1))
        .i(itest(Pred::Ult, Val::Param(1), s.v(1)))
        .i(Inst::Select(LType::I64, s.v(2), Val::Param(1), s.v(1)))
        .i(isub(s.v(1), s.v(3)))
        .i(itest(Pred::Ule, Val::Param(2), s.v(4)))
        .i(Inst::Select(LType::I64, s.v(5), Val::Param(2), s.v(4)))
        .i(itest(Pred::Ugt, s.v(6), num(0)))
        .i(Inst::CondBr(s.v(7), s.b(0), s.b(1)))
        .at(s.b(0))
        .i(imul(s.v(6), size))
        .i(call(Rt::Malloc, a1(s.v(9))))
        .i(imul(s.v(3), size))
        .i(gep(s.v(0), s.v(11)))
        .i(call(Rt::Memcpy, a3(s.v(10), s.v(12), s.v(9))));
    assert(goes_on_from(b, s));
    assert(owns(b, s.v(10)));
    writing_goes_on(s, b);
    walk_buffer_is_clean(c, b, element, s.v(10), s.v(6), size);
    let w = walk_buffer_code(c, b, Walk::Acquire, element, s.v(10), s.v(6), size);
    ret_list_is_clean(w, s.v(10), s.v(6));
    let full = ret_list_code(w, s.v(10), s.v(6)).at(s.b(1));
    assert(writes_its_own(full));
    let m = full.i(call(Rt::Malloc, a1(num(0))));
    reading_is_clean(full, m);
    ret_list_is_clean(m, full.v(0), num(0));
}

/// `List.concat` writes only to memory of its own.
pub proof fn concat_writes_its_own(c: &EmitContext, element: IRType)
    ensures
        writes_its_own(concat_code(c, start(), element)),
{
    let s = start();
    let size = size_of(element);
    let e = s.i(Inst::Extract(LType::List, Val::Param(0), 0))
        .i(Inst::Extract(LType::List, Val::Param(0), 1))
        .i(Inst::Extract(LType::List, Val::Param(1), 0))
        .i(Inst::Extract(LType::List, Val::Param(1), 1))
        .i(iadd(s.v(1), s.v(3)));
    reading_is_clean(s, e);
    copy_buffer_is_clean(c, e, element, s.v(0), s.v(1), s.v(4), size);
    let b = copy_buffer_code(c, e, Walk::Acquire, element, s.v(0), s.v(1), s.v(4), size);
    let m = b.i(imul(s.v(1), size))
        .i(gep(e.v(1), b.v(0)))
        .i(imul(s.v(3), size))
        .i(call(Rt::Memcpy, a3(b.v(1), s.v(2), b.v(2))));
    assert(goes_on_from(m, b));
    place_is_owned(b, m, e.v(1), b.v(0), b.log.len() + 1);
    writing_goes_on(b, m);
    walk_buffer_is_clean(c, m, element, b.v(1), s.v(3), size);
    let w = walk_buffer_code(c, m, Walk::Acquire, element, b.v(1), s.v(3), size);
    ret_list_is_clean(w, e.v(1), s.v(4));
}

/// Giving back an option and a list as a pair writes only to a slot.
proof fn ret_pop_is_clean(s: Code, tuple: usize, option: IRSymbol, popped: Val, buf: Val, len: Val)
    requires
        writes_its_own(s),
        s.room(16),
    ensures
        clean(ret_pop_code(s, tuple, option, popped, buf, len), s),
        ret_pop_code(s, tuple, option, popped, buf, len).log.len() == s.log.len() + 10,
{
    let l = list_struct_code(s, buf, len, len);
    reading_is_clean(s, l);
    let t = ret_pop_code(s, tuple, option, popped, buf, len);
    assert(goes_on_from(t, l));
    assert(owns(t, l.v(0)));
    assert(owns(t, l.v(1)));
    assert(owns(t, l.v(3)));
    writing_goes_on(l, t);
    clean_further(s, l, t);
}

/// `List.pop` writes only to memory of its own.
pub proof fn pop_writes_its_own(c: &EmitContext, element: IRType, tuple: usize, option: IRSymbol)
    ensures
        writes_its_own(pop_code(c, start(), element, tuple, option)),
{
    let s = start();
    let size = size_of(element);
    let none_tag = IRVariantTag(OPTION_NONE);
    let some_tag = IRVariantTag(OPTION_SOME);
    let f = s.word("empty"@).word("nonempty"@)
        .i(Inst::Extract(LType::List, Val::Param(0), 0))
        .i(Inst::Extract(LType::List, Val::Param(0), 1))
        .i(itest(Pred::Eq, s.v(1), num(0)))
        .i(Inst::CondBr(s.v(2), s.b(0), s.b(1)))
        .at(s.b(0));
    reading_is_clean(s, f);
    enum_value_is_clean(c, f, option, none_tag, seq![]);
    let (n, none) = enum_value_code(c, f, option, none_tag, seq![]);
    copy_buffer_is_clean(c, n, element, s.v(0), s.v(1), s.v(1), size);
    let b = copy_buffer_code(c, n, Walk::Acquire, element, s.v(0), s.v(1), s.v(1), size);
    ret_pop_is_clean(b, tuple, option, none, n.v(1), s.v(1));
    let empty = ret_pop_code(b, tuple, option, none, n.v(1), s.v(1)).at(s.b(1));
    assert(writes_its_own(empty));
    let l = empty.i(isub(s.v(1), num(1)))
        .i(imul(empty.v(0), size))
        .i(gep(s.v(0), empty.v(1)))
        .i(Inst::Load(value_type(element), empty.v(2)));
    reading_is_clean(empty, l);
    acquire_value_is_clean(c, l, element, empty.v(3));
    let (a, value) = acquire_value_code(c, l, element, empty.v(3));
    enum_value_is_clean(c, a, option, some_tag, seq![value]);
    let (w, some) = enum_value_code(c, a, option, some_tag, seq![value]);
    copy_buffer_is_clean(c, w, element, s.v(0), empty.v(0), empty.v(0), size);
    let d = copy_buffer_code(c, w, Walk::Acquire, element, s.v(0), empty.v(0), empty.v(0), size);
    ret_pop_is_clean(d, tuple, option, some, w.v(1), empty.v(0));
}

/// `List.get` writes only memory of its own.
pub proof fn get_writes_its_own(c: &EmitContext, element: IRType, option: IRSymbol)
    ensures
        writes_its_own(get_code(c, start(), element, option)),
{
    let s = start();
    let none_tag = IRVariantTag(OPTION_NONE);
    let some_tag = IRVariantTag(OPTION_SOME);
    let ok = get_load_code(s, element);
    reading_is_clean(s, ok);
    acquire_value_is_clean(c, ok, element, s.v(6));
    let (a, value) = acquire_value_code(c, ok, element, s.v(6));
    enum_value_is_clean(c, a, option, some_tag, seq![value]);
    let (w, some) = enum_value_code(c, a, option, some_tag, seq![value]);
    let r = w.i(Inst::Ret(LType::Enum(option), some)).at(s.b(1));
    reading_is_clean(w, r);
    enum_value_is_clean(c, r, option, none_tag, seq![]);
    let (n, none) = enum_value_code(c, r, option, none_tag, seq![]);
    reading_is_clean(n, n.i(Inst::Ret(LType::Enum(option), none)));
}

} // verus!
