//! What intrinsics that answer with an `Option` or a `Result` give back.
//!
//! `Some` and `Ok` are the first variants of their enums, `None` and `Err`
//! the second ones.

use vstd::prelude::*;
use crate::ctx::EmitContext;
use crate::emit::enums::enum_value_code;
use crate::emit::variants::{
    agree, builds, enum_value_runs, enum_value_stands, gave_variant, is_variant, known_by, lies_in, operands,
    payload_size, variant_is_returned,
};
use crate::intrinsics::parse::{parse_code, parsed_type};
use crate::intrinsics::result::{ret_ok_code, ret_unit_error_code, unit_error};
use crate::intrinsics::string::get_code;
use crate::ir::{IRSymbol, IRType, IRVariantTag, ParseTarget};
use crate::llvm::{a2, call, is_null, start, Callee, Cases, Code, Inst, LType, Pred, Val};
use crate::memory::{byte_limit, byte_limit_is_power, number, Memory};
use crate::runtime::Rt;
use crate::semantics::{
    arguments, arrives, block_begins, booted, branches, byte_count, calls, chosen, ends, goes_on_from,
    loads, read, seek_finds, slots_stand, stands, switches, tests, Machine, Outside,
};

verus! {

/// The payload of a variant is one field, which is not boxed.
pub open spec fn carries_one(c: &EmitContext, ty: IRSymbol, tag: u8) -> bool {
    c.payload(ty, tag).len() == 1 && !(c.payload(ty, tag)[0] is Indirect)
}

/// A variant with one field goes on in its block.
pub proof fn single_stands(c: &EmitContext, s: Code, ty: IRSymbol, tag: u8, value: Val)
    requires
        carries_one(c, ty, tag),
        s.log.len() + 20 <= usize::MAX,
    ensures
        ({
            let (t, v) = enum_value_code(c, s, ty, IRVariantTag(tag), seq![value]);
            &&& goes_on_from(t, s, 6)
            &&& t.slots == s.slots.push(LType::Enum(ty))
            &&& v == Val::At((s.log.len() + 5) as usize)
        }),
{
    enum_value_stands(c, s, ty, IRVariantTag(tag), seq![value]);
}

/// A variant without a field goes on in its block.
pub proof fn unit_stands(c: &EmitContext, s: Code, ty: IRSymbol, tag: u8)
    requires
        c.payload(ty, tag).len() == 0,
        s.log.len() + 20 <= usize::MAX,
    ensures
        ({
            let (t, v) = enum_value_code(c, s, ty, IRVariantTag(tag), seq![]);
            &&& goes_on_from(t, s, 3)
            &&& t.slots == s.slots.push(LType::Enum(ty))
            &&& v == Val::At((s.log.len() + 2) as usize)
        }),
{
    enum_value_stands(c, s, ty, IRVariantTag(tag), seq![]);
}

/// What a variant with one field is made of, as far as it is returned.
pub proof fn ret_ok_stands(c: &EmitContext, s: Code, result: IRSymbol, value: Val)
    requires
        carries_one(c, result, 0),
        s.log.len() + 20 <= usize::MAX,
    ensures
        goes_on_from(ret_ok_code(c, s, result, value), s, 7),
{
    single_stands(c, s, result, 0, value);
}

/// What an error is made of, as far as it is returned.
pub proof fn ret_unit_error_stands(c: &EmitContext, s: Code, result: IRSymbol, error: (IRSymbol, IRVariantTag))
    requires
        carries_one(c, result, 1),
        c.payload(error.0, error.1.0).len() == 0,
        s.log.len() + 40 <= usize::MAX,
    ensures
        goes_on_from(ret_unit_error_code(c, s, result, error), s, 10),
{
    let (t, e) = enum_value_code(c, s, error.0, error.1, seq![]);
    unit_stands(c, s, error.0, error.1.0);
    single_stands(c, t, result, 1, e);
}

/// A variant with one field that is returned is given back.
pub proof fn single_is_returned(
    c: &EmitContext,
    code: Code,
    o: Outside,
    s: Code,
    m: Machine,
    ty: IRSymbol,
    tag: u8,
    value: Val,
)
    requires
        carries_one(c, ty, tag),
        lies_in(c, o, ty, tag),
        slots_stand(o, code),
        s.log.len() + 20 <= usize::MAX,
        ({
            let (t, v) = enum_value_code(c, s, ty, IRVariantTag(tag), seq![value]);
            stands(code, t.i(Inst::Ret(LType::Enum(ty), v)))
        }),
        m.at == s.log.len(),
        m.returned is None,
        known_by(value, s.log.len() as int),
        0 <= read(o, m.results, value) < byte_limit(payload_size(c, o, ty, tag, 0)),
    ensures
        m.comes_to(code, o, gave_variant(c, o, ty, tag, seq![read(o, m.results, value)])),
{
    let (t, v) = enum_value_code(c, s, ty, IRVariantTag(tag), seq![value]);
    let r = t.i(Inst::Ret(LType::Enum(ty), v));
    single_stands(c, s, ty, tag, value);
    assert(code.log[s.log.len() as int + 6] == r.log[s.log.len() as int + 6]);
    assert forall|i: int| 0 <= i < t.log.len() implies #[trigger] code.log[i] == t.log[i] by {
        assert(code.log[i] == r.log[i]);
    }
    assert(code.slots[s.slots.len() as int] == t.slots[s.slots.len() as int]);
    assert(operands(o, m.results, seq![value]) =~= seq![read(o, m.results, value)]);
    assert(builds(c, code, o, s, m, ty, IRVariantTag(tag), seq![value]));
    variant_is_returned(c, code, o, s, m, ty, IRVariantTag(tag), seq![value]);
}

/// A variant without a field that is returned is given back.
pub proof fn unit_is_returned(c: &EmitContext, code: Code, o: Outside, s: Code, m: Machine, ty: IRSymbol, tag: u8)
    requires
        c.payload(ty, tag).len() == 0,
        lies_in(c, o, ty, tag),
        slots_stand(o, code),
        s.log.len() + 20 <= usize::MAX,
        ({
            let (t, v) = enum_value_code(c, s, ty, IRVariantTag(tag), seq![]);
            stands(code, t.i(Inst::Ret(LType::Enum(ty), v)))
        }),
        m.at == s.log.len(),
        m.returned is None,
    ensures
        m.comes_to(code, o, gave_variant(c, o, ty, tag, seq![])),
{
    let (t, v) = enum_value_code(c, s, ty, IRVariantTag(tag), seq![]);
    let r = t.i(Inst::Ret(LType::Enum(ty), v));
    unit_stands(c, s, ty, tag);
    assert(code.log[s.log.len() as int + 3] == r.log[s.log.len() as int + 3]);
    assert forall|i: int| 0 <= i < t.log.len() implies #[trigger] code.log[i] == t.log[i] by {
        assert(code.log[i] == r.log[i]);
    }
    assert(code.slots[s.slots.len() as int] == t.slots[s.slots.len() as int]);
    assert(operands(o, m.results, seq![]) =~= seq![]);
    assert(builds(c, code, o, s, m, ty, IRVariantTag(tag), seq![]));
    variant_is_returned(c, code, o, s, m, ty, IRVariantTag(tag), seq![]);
}

/// A result carries errors of this sort: the enum lies in its `Err`.
pub open spec fn carries_error(
    c: &EmitContext,
    o: Outside,
    result: IRSymbol,
    error: (IRSymbol, IRVariantTag),
) -> bool {
    &&& c.payload(result, 1).len() == 1
    &&& c.payload(result, 1)[0] == IRType::Enum(error.0)
    &&& c.payload(error.0, error.1.0).len() == 0
    &&& lies_in(c, o, result, 1)
    &&& lies_in(c, o, error.0, error.1.0)
}

/// A number is `Err` of a fieldless error variant.
pub open spec fn is_error(c: &EmitContext, o: Outside, result: IRSymbol, x: int, error: (IRSymbol, IRVariantTag)) -> bool {
    exists|e: int|
        #[trigger] is_variant(c, o, result, x, 1, seq![e]) && is_variant(
            c,
            o,
            error.0,
            e,
            error.1.0,
            seq![],
        )
}

/// The code of an error value: the error, and `Err` around it.
pub open spec fn error_code(c: &EmitContext, s: Code, result: IRSymbol, error: (IRSymbol, IRVariantTag)) -> (Code, Val) {
    let (t, e) = enum_value_code(c, s, error.0, error.1, seq![]);
    enum_value_code(c, t, result, IRVariantTag(1), seq![e])
}

/// An error value goes on in its block.
pub proof fn error_stands(c: &EmitContext, s: Code, result: IRSymbol, error: (IRSymbol, IRVariantTag))
    requires
        carries_one(c, result, 1),
        c.payload(error.0, error.1.0).len() == 0,
        s.log.len() + 40 <= usize::MAX,
    ensures
        ({
            let (u, v) = error_code(c, s, result, error);
            &&& goes_on_from(u, s, 9)
            &&& v == Val::At((s.log.len() + 8) as usize)
        }),
{
    let (t, e) = enum_value_code(c, s, error.0, error.1, seq![]);
    unit_stands(c, s, error.0, error.1.0);
    single_stands(c, t, result, 1, e);
}

/// Building an error gives one.
pub proof fn error_is_built(
    c: &EmitContext,
    code: Code,
    o: Outside,
    s: Code,
    m: Machine,
    result: IRSymbol,
    error: (IRSymbol, IRVariantTag),
) -> (l: Machine)
    requires
        carries_error(c, o, result, error),
        slots_stand(o, code),
        s.log.len() + 40 <= usize::MAX,
        stands(code, error_code(c, s, result, error).0),
        s.log.len() + 9 < code.log.len(),
        code.log[s.log.len() as int + 9].block == s.cur,
        m.at == s.log.len(),
        m.returned is None,
    ensures
        m.leads_to(code, o, l),
        l.at == s.log.len() + 9,
        l.returned is None,
        agree(l.results, m.results, s.log.len() as int),
        is_error(c, o, result, read(o, l.results, error_code(c, s, result, error).1), error),
{
    let (t, e) = enum_value_code(c, s, error.0, error.1, seq![]);
    let (u, v) = enum_value_code(c, t, result, IRVariantTag(1), seq![e]);
    unit_stands(c, s, error.0, error.1.0);
    single_stands(c, t, result, 1, e);
    assert forall|i: int| 0 <= i < t.log.len() implies #[trigger] code.log[i] == t.log[i] by {
        assert(code.log[i] == u.log[i]);
    }
    assert(code.slots[s.slots.len() as int] == u.slots[s.slots.len() as int]);
    assert(u.slots[s.slots.len() as int] == t.slots[s.slots.len() as int]);
    assert(code.slots[t.slots.len() as int] == u.slots[t.slots.len() as int]);
    assert(code.log[t.log.len() as int] == u.log[t.log.len() as int]);
    assert(builds(c, code, o, s, m, error.0, error.1, seq![]));
    let l = enum_value_runs(c, code, o, s, m, error.0, error.1, seq![]);
    assert(operands(o, m.results, seq![]) =~= seq![]);
    let x = read(o, l.results, e);
    assert(is_variant(c, o, error.0, x, error.1.0, seq![]));
    assert(payload_size(c, o, result, 1, 0) == byte_count(o, LType::Enum(error.0)));
    assert(builds(c, code, o, t, l, result, IRVariantTag(1), seq![e]));
    let k = enum_value_runs(c, code, o, t, l, result, IRVariantTag(1), seq![e]);
    assert(operands(o, l.results, seq![e]) =~= seq![x]);
    assert(is_variant(c, o, result, read(o, k.results, v), 1, seq![x]));
    assert forall|i: usize| i < s.log.len() implies #[trigger] k.results[i] == m.results[i] by {
        assert(k.results[i] == l.results[i]);
    }
    k
}

/// The function gave back `Err` of a fieldless error variant.
pub open spec fn gave_error(c: &EmitContext, o: Outside, result: IRSymbol, error: (IRSymbol, IRVariantTag)) -> spec_fn(
    Machine,
) -> bool {
    |l: Machine| l.returned matches Some(x) && is_error(c, o, result, x, error)
}

/// `Err` of a fieldless error variant that is returned is given back.
pub proof fn error_is_returned(
    c: &EmitContext,
    code: Code,
    o: Outside,
    s: Code,
    m: Machine,
    result: IRSymbol,
    error: (IRSymbol, IRVariantTag),
)
    requires
        carries_error(c, o, result, error),
        slots_stand(o, code),
        s.log.len() + 40 <= usize::MAX,
        stands(code, ret_unit_error_code(c, s, result, error)),
        m.at == s.log.len(),
        m.returned is None,
    ensures
        m.comes_to(code, o, gave_error(c, o, result, error)),
{
    let (u, v) = error_code(c, s, result, error);
    let r = ret_unit_error_code(c, s, result, error);
    assert(r == u.i(Inst::Ret(LType::Enum(result), v)));
    error_stands(c, s, result, error);
    assert(code.log[u.log.len() as int] == r.log[u.log.len() as int]);
    assert forall|i: int| 0 <= i < u.log.len() implies #[trigger] code.log[i] == u.log[i] by {
        assert(code.log[i] == r.log[i]);
    }
    let k = error_is_built(c, code, o, s, m, result, error);
    ends(k, code, o, LType::Enum(result), v);
    arrives(k.step(code, o), code, o, gave_error(c, o, result, error));
}

/// `String.get` gives back `Some` of the string that the runtime answers
/// with, and `None` where it answers null.
pub proof fn get_gives_what_is_answered(c: &EmitContext, o: Outside, memory: Memory, option: IRSymbol)
    requires
        c.payload(option, 0) == seq![IRType::String],
        c.payload(option, 1).len() == 0,
        lies_in(c, o, option, 0),
        lies_in(c, o, option, 1),
        slots_stand(o, get_code(c, start(), option)),
        0 <= (o.calls)(
            Callee::Runtime(Rt::StringGet),
            seq![(o.values)(Val::Param(0)), (o.values)(Val::Param(1))],
            memory,
        ).0 <= u64::MAX,
    ensures
        ({
            let code = get_code(c, start(), option);
            let answer = (o.calls)(
                Callee::Runtime(Rt::StringGet),
                seq![(o.values)(Val::Param(0)), (o.values)(Val::Param(1))],
                memory,
            ).0;
            booted(code, memory).comes_to(
                code,
                o,
                if answer != 0 {
                    gave_variant(c, o, option, 0, seq![answer])
                } else {
                    gave_variant(c, o, option, 1, seq![])
                },
            )
        }),
{
    let s = start();
    let code = get_code(c, s, option);
    let a = s.i(call(Rt::StringGet, a2(Val::Param(0), Val::Param(1))))
        .i(is_null(s.v(0)))
        .word("some"@).word("none"@)
        .i(Inst::CondBr(s.v(1), s.b(1), s.b(0)))
        .at(s.b(0));
    let (w, some) = enum_value_code(c, a, option, IRVariantTag(0), seq![s.v(0)]);
    let x = w.i(Inst::Ret(LType::Enum(option), some));
    let b = x.at(s.b(1));
    let (n, none) = enum_value_code(c, b, option, IRVariantTag(1), seq![]);
    assert(code == n.i(Inst::Ret(LType::Enum(option), none)));
    single_stands(c, a, option, 0, s.v(0));
    unit_stands(c, b, option, 1);
    let args = seq![(o.values)(Val::Param(0)), (o.values)(Val::Param(1))];
    let answer = (o.calls)(Callee::Runtime(Rt::StringGet), args, memory).0;
    let m0 = booted(code, memory);
    assert(code.log[0] == a.log[0] && code.log[1] == a.log[1] && code.log[2] == a.log[2]);
    seek_finds(code.log, 0, 0, 0);
    assert(arguments(o, m0.results, a2(Val::Param(0), Val::Param(1))) =~= args) by {
        reveal_with_fuel(arguments, 4);
    }
    calls(m0, code, o, Callee::Runtime(Rt::StringGet), a2(Val::Param(0), Val::Param(1)));
    let m1 = m0.step(code, o);
    tests(m1, code, o, Pred::Eq, LType::Ptr, Val::At(0), Val::Null);
    let m2 = m1.step(code, o);
    branches(m2, code, o, Val::At(1), 2, 1);
    let m3 = m2.step(code, o);
    assert(stands(code, b));
    assert(stands(code, x));
    assert(stands(code, a));
    byte_limit_is_power(8);
    vstd::arithmetic::power2::lemma2_to64();
    if answer != 0 {
        block_begins(code, a);
        single_is_returned(c, code, o, a, m3, option, 0, s.v(0));
    } else {
        assert forall|i: int| 0 <= i < b.log.len() implies (#[trigger] b.log[i]).block != b.cur by {
            if i >= a.log.len() && i < w.log.len() {
                assert(w.log[i].block == a.cur);
            }
        }
        block_begins(code, b);
        unit_is_returned(c, code, o, b, m3, option, 1);
    }
}

/// A parse gives back `Ok` of the number that the runtime stored where it
/// answers that it parsed one, `Err(OutOfRange)` where it answers that the
/// number does not fit, and `Err(InvalidFormat)` for any other answer.
pub proof fn parse_gives_what_is_answered(
    c: &EmitContext,
    o: Outside,
    memory: Memory,
    target: ParseTarget,
    result: IRSymbol,
    out_of_range: (IRSymbol, IRVariantTag),
    invalid: (IRSymbol, IRVariantTag),
)
    requires
        c.payload(result, 0) == seq![if target == ParseTarget::Int {
            IRType::Int64
        } else {
            IRType::Float64
        }],
        lies_in(c, o, result, 0),
        unit_error(c, result, "OutOfRange"@) == Some(out_of_range),
        unit_error(c, result, "InvalidFormat"@) == Some(invalid),
        carries_error(c, o, result, out_of_range),
        carries_error(c, o, result, invalid),
        slots_stand(o, parse_code(c, start(), target, result)),
    ensures
        ({
            let code = parse_code(c, start(), target, result);
            let out = (o.values)(Val::Slot(0));
            let helper = match target {
                ParseTarget::Int => Rt::IntParse,
                ParseTarget::Float => Rt::FloatParse,
            };
            let (answer, after) = (o.calls)(
                Callee::Runtime(helper),
                seq![(o.values)(Val::Param(0)), out],
                memory,
            );
            booted(code, memory).comes_to(
                code,
                o,
                if answer == 1 {
                    gave_variant(c, o, result, 0, seq![number(after, out, 8)])
                } else if answer == 2 {
                    gave_error(c, o, result, out_of_range)
                } else {
                    gave_error(c, o, result, invalid)
                },
            )
        }),
{
    reveal(parse_code);
    let s = start();
    let code = parse_code(c, s, target, result);
    let ty = parsed_type(target);
    let helper = if target == ParseTarget::Int { Rt::IntParse } else { Rt::FloatParse };
    let cases = Cases::Cons(
        1,
        s.b(0),
        Box::new(Cases::Cons(2, s.b(1), Box::new(Cases::Nil))),
    );
    let f = s.slot(ty)
        .i(call(helper, a2(Val::Param(0), s.sv(0))))
        .word("ok"@).word("out_of_range"@).word("invalid"@)
        .i(Inst::Switch(LType::I64, s.v(0), s.b(2), cases))
        .at(s.b(0));
    let t = f.i(Inst::Load(ty, s.sv(0)));
    let x = ret_ok_code(c, t, result, s.v(2));
    let ok = x.at(s.b(1));
    let y = ret_unit_error_code(c, ok, result, out_of_range);
    let range = y.at(s.b(2));
    assert(code == ret_unit_error_code(c, range, result, invalid));
    ret_ok_stands(c, t, result, s.v(2));
    ret_unit_error_stands(c, ok, result, out_of_range);
    ret_unit_error_stands(c, range, result, invalid);
    let out = (o.values)(Val::Slot(0));
    let args = seq![(o.values)(Val::Param(0)), out];
    let (answer, after) = (o.calls)(Callee::Runtime(helper), args, memory);
    let m0 = booted(code, memory);
    assert(stands(code, range));
    assert(stands(code, y));
    assert(stands(code, ok));
    assert(stands(code, x));
    assert(stands(code, t));
    assert(stands(code, f));
    assert(code.log[0] == t.log[0] && code.log[1] == t.log[1] && code.log[2] == t.log[2]);
    seek_finds(code.log, 0, 0, 0);
    assert(arguments(o, m0.results, a2(Val::Param(0), s.sv(0))) =~= args) by {
        reveal_with_fuel(arguments, 4);
    }
    calls(m0, code, o, Callee::Runtime(helper), a2(Val::Param(0), s.sv(0)));
    let m1 = m0.step(code, o);
    switches(m1, code, o, LType::I64, Val::At(0), s.b(2), cases);
    let m2 = m1.step(code, o);
    reveal_with_fuel(chosen, 4);
    if answer == 1 {
        block_begins(code, f);
        assert(code.log[3] == x.log[3] && x.log[3].block == t.cur);
        loads(m2, code, o, ty, s.sv(0));
        let m3 = m2.step(code, o);
        crate::memory::number_and_last_byte(after, out, 8);
        single_is_returned(c, code, o, t, m3, result, 0, s.v(2));
    } else if answer == 2 {
        assert(code.log[ok.log.len() as int] == y.log[ok.log.len() as int]);
        block_begins(code, ok);
        error_is_returned(c, code, o, ok, m2, result, out_of_range);
    } else {
        block_begins(code, range);
        error_is_returned(c, code, o, range, m2, result, invalid);
    }
}

} // verus!
