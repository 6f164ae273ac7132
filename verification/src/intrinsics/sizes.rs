//! How many elements collections say they have.

use vstd::prelude::*;
use crate::ctx::EmitContext;
use crate::intrinsics::list::list_code;
use crate::intrinsics::map::map_code;
use crate::intrinsics::set::set_code;
use crate::ir::{IRFunction, IRType, ListMethod, MapMethod, SetMethod};
use crate::llvm::{a1, num, start, Callee, Code, Inst, LType, Pred, Val};
use crate::memory::Memory;
use crate::runtime::Rt;
use crate::semantics::{
    arguments, arrives, bit, booted, byte_count, calls, ends, extracts, finishes, inserts,
    multiplies, seek_finds, tests, Machine, Outside,
};
use crate::types::value_type;

verus! {

/// A body that takes a part of its receiver and gives it back.
proof fn part_is_given_back(code: Code, o: Outside, memory: Memory, ty: LType, k: usize)
    requires
        code.log.len() == 2,
        code.log[0].block == 0 && code.log[1].block == 0,
        code.log[0].inst == Inst::Extract(ty, Val::Param(0), k),
        code.log[1].inst == Inst::Ret(LType::I64, Val::At(0)),
    ensures
        booted(code, memory).gives_back(code, o, (o.parts)(0, k)),
{
    seek_finds(code.log, 0, 0, 0);
    let m0 = booted(code, memory);
    extracts(m0, code, o, ty, 0, k);
    finishes(m0.step(code, o), code, o, LType::I64, Val::At(0));
}

/// A body that says whether a part of its receiver is zero.
proof fn zero_is_told(code: Code, o: Outside, memory: Memory, ty: LType, k: usize)
    requires
        code.log.len() == 3,
        code.log[0].block == 0 && code.log[1].block == 0 && code.log[2].block == 0,
        code.log[0].inst == Inst::Extract(ty, Val::Param(0), k),
        code.log[1].inst == Inst::ITest(Pred::Eq, LType::I64, Val::At(0), num(0)),
        code.log[2].inst == Inst::Ret(LType::I1, Val::At(1)),
        0 <= (o.parts)(0, k) <= u64::MAX,
    ensures
        booted(code, memory).gives_back(code, o, bit((o.parts)(0, k) == 0) as int),
{
    seek_finds(code.log, 0, 0, 0);
    let m0 = booted(code, memory);
    extracts(m0, code, o, ty, 0, k);
    let m1 = m0.step(code, o);
    tests(m1, code, o, Pred::Eq, LType::I64, Val::At(0), num(0));
    finishes(m1.step(code, o), code, o, LType::I1, Val::At(1));
}

/// `length` of a list gives back its length, which is its second part.
/// `empty?` says whether that is zero.
pub proof fn list_says_its_length(c: &EmitContext, o: Outside, memory: Memory, function: &IRFunction, element: IRType)
    requires
        0 <= (o.parts)(0, 1) <= u64::MAX,
    ensures
        ({
            let length = list_code(c, start(), function, ListMethod::Length, element);
            let empty = list_code(c, start(), function, ListMethod::EmptyQ, element);
            &&& booted(length, memory).gives_back(length, o, (o.parts)(0, 1))
            &&& booted(empty, memory).gives_back(empty, o, bit((o.parts)(0, 1) == 0) as int)
        }),
{
    reveal(list_code);
    let length = list_code(c, start(), function, ListMethod::Length, element);
    let empty = list_code(c, start(), function, ListMethod::EmptyQ, element);
    part_is_given_back(length, o, memory, LType::List, 1);
    zero_is_told(empty, o, memory, LType::List, 1);
}

/// `length` of a map gives back its count, which is its third part.
/// `empty?` says whether that is zero.
pub proof fn map_says_its_length(
    c: &EmitContext,
    o: Outside,
    memory: Memory,
    function: &IRFunction,
    key: IRType,
    value: IRType,
)
    requires
        0 <= (o.parts)(0, 2) <= u64::MAX,
    ensures
        ({
            let length = map_code(c, start(), function, MapMethod::Length, key, value);
            let empty = map_code(c, start(), function, MapMethod::EmptyQ, key, value);
            &&& booted(length, memory).gives_back(length, o, (o.parts)(0, 2))
            &&& booted(empty, memory).gives_back(empty, o, bit((o.parts)(0, 2) == 0) as int)
        }),
{
    reveal(map_code);
    let length = map_code(c, start(), function, MapMethod::Length, key, value);
    let empty = map_code(c, start(), function, MapMethod::EmptyQ, key, value);
    part_is_given_back(length, o, memory, LType::Table, 2);
    zero_is_told(empty, o, memory, LType::Table, 2);
}

/// `length` of a set gives back its count, which is its third part.
/// `empty?` says whether that is zero.
pub proof fn set_says_its_length(c: &EmitContext, o: Outside, memory: Memory, function: &IRFunction, item: IRType)
    requires
        0 <= (o.parts)(0, 2) <= u64::MAX,
    ensures
        ({
            let length = set_code(c, start(), function, SetMethod::Length, item);
            let empty = set_code(c, start(), function, SetMethod::EmptyQ, item);
            &&& booted(length, memory).gives_back(length, o, (o.parts)(0, 2))
            &&& booted(empty, memory).gives_back(empty, o, bit((o.parts)(0, 2) == 0) as int)
        }),
{
    reveal(set_code);
    let length = set_code(c, start(), function, SetMethod::Length, item);
    let empty = set_code(c, start(), function, SetMethod::EmptyQ, item);
    part_is_given_back(length, o, memory, LType::Table, 2);
    zero_is_told(empty, o, memory, LType::Table, 2);
}

/// A new list holds nothing and has room for eight elements in what
/// `malloc` hands out for them.
pub proof fn new_list_is_empty(c: &EmitContext, o: Outside, memory: Memory, function: &IRFunction, element: IRType)
    requires
        8 * byte_count(o, value_type(element)) <= u64::MAX,
    ensures
        ({
            let code = list_code(c, start(), function, ListMethod::New, element);
            let buf = (o.calls)(
                Callee::Runtime(Rt::Malloc),
                seq![8 * byte_count(o, value_type(element)) as int],
                memory,
            ).0;
            booted(code, memory).comes_to(
                code,
                o,
                |l: Machine|
                    {
                        &&& l.returned is Some
                        &&& l.returned_parts[0] == buf
                        &&& l.returned_parts[1] == 0
                        &&& l.returned_parts[2] == 8
                    },
            )
        }),
{
    reveal(list_code);
    let code = list_code(c, start(), function, ListMethod::New, element);
    let size = byte_count(o, value_type(element)) as int;
    seek_finds(code.log, 0, 0, 0);
    let m0 = booted(code, memory);
    multiplies(m0, code, o, num(8), Val::SizeOf(value_type(element)));
    let m1 = m0.step(code, o);
    assert(arguments(o, m1.results, a1(Val::At(0))) =~= seq![8 * size]) by {
        reveal_with_fuel(arguments, 3);
    }
    calls(m1, code, o, Callee::Runtime(Rt::Malloc), a1(Val::At(0)));
    let m2 = m1.step(code, o);
    inserts(m2, code, o, LType::List, Val::Undef, LType::Ptr, Val::At(1), 0);
    let m3 = m2.step(code, o);
    inserts(m3, code, o, LType::List, Val::At(2), LType::I64, num(0), 1);
    let m4 = m3.step(code, o);
    inserts(m4, code, o, LType::List, Val::At(3), LType::I64, num(8), 2);
    let m5 = m4.step(code, o);
    ends(m5, code, o, LType::List, Val::At(4));
    let buf = (o.calls)(Callee::Runtime(Rt::Malloc), seq![8 * size], memory).0;
    arrives(
        m5.step(code, o),
        code,
        o,
        |l: Machine|
            {
                &&& l.returned is Some
                &&& l.returned_parts[0] == buf
                &&& l.returned_parts[1] == 0
                &&& l.returned_parts[2] == 8
            },
    );
}

} // verus!
