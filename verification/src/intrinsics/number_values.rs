//! What intrinsics on numbers give back.

use vstd::prelude::*;
use crate::ctx::EmitContext;
use crate::emit::arithmetic::{integer, is_integer, is_word, span};
use crate::intrinsics::bitwise::bitwise_code;
use crate::intrinsics::debug::format_code;
use crate::intrinsics::equality::eq_code;
use crate::intrinsics::numeric::{convert_code, range_check_code};
use crate::intrinsics::outcomes::{
    carries_error, error_is_returned, gave_error, ret_ok_stands, ret_unit_error_stands, single_is_returned,
};
use crate::emit::variants::{gave_variant, lies_in};
use crate::intrinsics::result::{ret_ok_code, ret_unit_error_code, unit_error};
use crate::ir::{
    BitOp, DebugImpl, EqualityImpl, IRFunction, IRSymbol, IRType, IRVariantTag, IntNarrowTarget, NumericConvert,
};
use crate::llvm::{a1, a2, num, start, BinOp, Callee, CastOp, Inst, LType, Pred, Val};
use crate::memory::{byte_limit, Memory};
use crate::runtime::Rt;
use crate::semantics::{
    arguments, bit, block_begins, booted, branches, calls, combines, converts, finishes, floats,
    modulus, read, seek_finds, signed_value, slots_stand, stands, tests, wrapped, Machine, Outside,
};
use crate::types::{value_type, width_of};

verus! {

/// The type that a checked conversion gives.
pub open spec fn converted_type(convert: NumericConvert) -> IRType {
    match convert {
        NumericConvert::IntNarrow(target) => match target {
            IntNarrowTarget::Int8 => IRType::Int8,
            IntNarrowTarget::Int16 => IRType::Int16,
            IntNarrowTarget::Int32 => IRType::Int32,
            IntNarrowTarget::UInt8 => IRType::UInt8,
            IntNarrowTarget::UInt16 => IRType::UInt16,
            IntNarrowTarget::UInt32 => IRType::UInt32,
            IntNarrowTarget::UInt64 => IRType::UInt64,
        },
        _ => IRType::Int64,
    }
}

/// The type that a checked conversion takes.
pub open spec fn source_type(convert: NumericConvert) -> IRType {
    if convert is IntNarrow {
        IRType::Int64
    } else {
        IRType::UInt64
    }
}

/// The function gave back `Ok` of a number of a type.
pub open spec fn gave_number(c: &EmitContext, o: Outside, result: IRSymbol, ty: IRType, x: int) -> spec_fn(
    Machine,
) -> bool {
    |l: Machine|
        exists|w: int|
            is_word(ty, w) && integer(ty, w) == x && #[trigger] gave_variant(c, o, result, 0, seq![w])(l)
}

proof fn signed_bits(x: i64)
    ensures
        signed_value(LType::I64, x as u64) == x,
{
    assert(x >= 0 ==> x as u64 == x) by (bit_vector);
    assert(x < 0 ==> x as u64 == 0x1_0000_0000_0000_0000 + x) by (bit_vector);
}

/// A checked conversion gives back `Ok` of the same number where the
/// target type holds it, and `Err(OutOfRange)` elsewhere.
#[verifier::spinoff_prover]
#[verifier::rlimit(40)]
pub proof fn conversion_keeps_the_number(
    c: &EmitContext,
    o: Outside,
    memory: Memory,
    function: &IRFunction,
    convert: NumericConvert,
    result: IRSymbol,
    out_of_range: (IRSymbol, IRVariantTag),
)
    requires
        convert != NumericConvert::FloatToFloat32,
        function.return_type == IRType::Enum(result),
        c.payload(result, 0) == seq![converted_type(convert)],
        lies_in(c, o, result, 0),
        unit_error(c, result, "OutOfRange"@) == Some(out_of_range),
        carries_error(c, o, result, out_of_range),
        slots_stand(o, convert_code(c, start(), function, convert)),
        0 <= (o.values)(Val::Param(0)) <= u64::MAX,
    ensures
        ({
            let code = convert_code(c, start(), function, convert);
            let x = integer(source_type(convert), (o.values)(Val::Param(0)));
            let (low, high) = span(converted_type(convert));
            booted(code, memory).comes_to(
                code,
                o,
                if low <= x < high {
                    gave_number(c, o, result, converted_type(convert), x)
                } else {
                    gave_error(c, o, result, out_of_range)
                },
            )
        }),
{
    reveal(convert_code);
    let s = start();
    let code = convert_code(c, s, function, convert);
    let ty = crate::intrinsics::numeric::target_type(convert);
    let x = (o.values)(Val::Param(0));
    let (lo, hi) = crate::intrinsics::numeric::bounds(convert);
    let t = range_check_code(s, convert, Val::Param(0));
    let f = t.word("ok"@).word("err"@).i(Inst::CondBr(s.v(2), s.b(0), s.b(1))).at(s.b(0));
    let (n, narrowed) = crate::intrinsics::numeric::narrow_code(f, ty);
    let y = ret_ok_code(c, n, result, narrowed);
    let e = y.at(s.b(1));
    assert(code == ret_unit_error_code(c, e, result, out_of_range));
    ret_ok_stands(c, n, result, narrowed);
    ret_unit_error_stands(c, e, result, out_of_range);
    assert(stands(code, e));
    assert(stands(code, y));
    assert(stands(code, n));
    assert(stands(code, f));
    assert(code.log[0] == f.log[0] && code.log[1] == f.log[1] && code.log[2] == f.log[2] && code.log[3]
        == f.log[3]);
    seek_finds(code.log, 0, 0, 0);
    let m0 = booted(code, memory);
    tests(m0, code, o, Pred::Sge, LType::I64, Val::Param(0), num(lo as i64 as u64));
    let m1 = m0.step(code, o);
    tests(m1, code, o, Pred::Sle, LType::I64, Val::Param(0), num(hi as i64 as u64));
    let m2 = m1.step(code, o);
    assert(0u64 & 0 == 0 && 0u64 & 1 == 0 && 1u64 & 0 == 0 && 1u64 & 1 == 1) by (bit_vector);
    combines(m2, code, o, BinOp::And, LType::I1, Val::At(0), Val::At(1));
    let m3 = m2.step(code, o);
    branches(m3, code, o, Val::At(2), 1, 2);
    let m4 = m3.step(code, o);
    signed_bits(lo as i64);
    signed_bits(hi as i64);
    let v = signed_value(LType::I64, x as u64);
    let within = lo <= v <= hi;
    assert(read(o, m3.results, Val::At(2)) == bit(within));
    let rt = converted_type(convert);
    let (low, high) = span(rt);
    let z = integer(source_type(convert), x);
    assert(within == (low <= z < high));
    if within {
        assert(code.log[4] == y.log[4] && y.log[4].block == n.cur);
        block_begins(code, f);
        let m5 = if ty == LType::I64 {
            m4
        } else {
            assert(code.log[5] == y.log[5] && y.log[5].block == n.cur);
            converts(m4, code, o, CastOp::Trunc, LType::I64, Val::Param(0), ty);
            m4.step(code, o)
        };
        let w = read(o, m5.results, narrowed);
        narrowed_word(rt, ty, x, z, w);
        single_is_returned(c, code, o, n, m5, result, 0, narrowed);
        let goal = gave_number(c, o, result, rt, z);
        let first = gave_variant(c, o, result, 0, seq![w]);
        assert forall|l: Machine| first(l) implies #[trigger] l.comes_to(code, o, goal) by {
            assert(gave_variant(c, o, result, 0, seq![w])(l));
            crate::semantics::arrives(l, code, o, goal);
        }
        crate::semantics::goes_on(m5, code, o, first, goal);
    } else {
        block_begins(code, e);
        error_is_returned(c, code, o, e, m4, result, out_of_range);
    }
}

proof fn narrowed_word(rt: IRType, ty: LType, x: int, z: int, w: int)
    requires
        is_integer(rt),
        ty == value_type(rt),
        0 <= x <= u64::MAX,
        span(rt).0 <= z < span(rt).1,
        z == x || z == x - 0x1_0000_0000_0000_0000,
        ty == LType::I64 ==> w == x,
        ty != LType::I64 ==> w == wrapped(ty, x),
    ensures
        is_word(rt, w),
        integer(rt, w) == z,
        w < byte_limit(
            match ty {
                LType::I8 => 1nat,
                LType::I16 => 2,
                LType::I32 => 4,
                _ => 8,
            },
        ),
{
    reveal_with_fuel(byte_limit, 9);
    let k = modulus(ty);
    if ty != LType::I64 {
        if z < 0 {
            vstd::arithmetic::div_mod::lemma_mod_add_multiples_vanish(z, k);
            vstd::arithmetic::div_mod::lemma_small_mod((z + k) as nat, k as nat);
        } else {
            vstd::arithmetic::div_mod::lemma_small_mod(z as nat, k as nat);
        }
        if z != x {
            let q = 0x1_0000_0000_0000_0000int / k;
            assert(x == z + q * k);
            vstd::arithmetic::div_mod::lemma_mod_multiples_vanish(q, z, k);
            assert(k * q + z == x);
        }
    }
}

/// What a bitwise method gives on words: the bits of both, of either, of
/// one alone, or of none. The left shift drops what leaves the width. The
/// right shift of a signed number divides it, rounded down, and that of an
/// unsigned one moves its bits.
pub open spec fn bits_given(op: BitOp, ty: LType, signed: bool, x: u64, y: u64) -> int {
    match op {
        BitOp::Band => (x & y) as int,
        BitOp::Bor => (x | y) as int,
        BitOp::Bxor => (x ^ y) as int,
        BitOp::Bnot => modulus(ty) - 1 - x,
        BitOp::Bsl => ((x << y) as int) % modulus(ty),
        BitOp::Bsr => if signed {
            (signed_value(ty, x) / ((1u64 << y) as int)) % modulus(ty)
        } else {
            (x >> y) as int
        },
    }
}

/// A bitwise method gives back what its name says of the receiver and the
/// operand. A shift is by fewer bits than the type has.
pub proof fn bitwise_method(o: Outside, memory: Memory, function: &IRFunction, op: BitOp, signed: bool)
    requires
        function.params@.len() > 0,
        is_integer(function.params@[0].ty),
        op != BitOp::Bnot ==> function.params@.len() > 1 && is_integer(function.params@[1].ty),
        is_word(function.params@[0].ty, (o.values)(Val::Param(0))),
        op != BitOp::Bnot ==> is_word(function.params@[1].ty, (o.values)(Val::Param(1))),
        op == BitOp::Bsl || op == BitOp::Bsr ==> (o.values)(Val::Param(1)) < width_of(
            value_type(function.params@[0].ty),
        ) && value_type(function.params@[1].ty) == LType::I64,
    ensures
        ({
            let code = bitwise_code(start(), function, op, signed);
            let ty = value_type(function.params@[0].ty);
            booted(code, memory).gives_back(
                code,
                o,
                bits_given(
                    op,
                    ty,
                    signed,
                    (o.values)(Val::Param(0)) as u64,
                    (o.values)(Val::Param(1)) as u64,
                ),
            )
        }),
{
    reveal(bitwise_code);
    let s = start();
    let code = bitwise_code(s, function, op, signed);
    let ty = value_type(function.params@[0].ty);
    let (x, y) = ((o.values)(Val::Param(0)), (o.values)(Val::Param(1)));
    seek_finds(code.log, 0, 0, 0);
    let m0 = booted(code, memory);
    match op {
        BitOp::Bnot => {
            floats(m0, code, o);
            let m1 = m0.step(code, o);
            vstd::arithmetic::div_mod::lemma_mod_add_multiples_vanish(-1 - x, modulus(ty));
            vstd::arithmetic::div_mod::lemma_small_mod(
                (modulus(ty) - 1 - x) as nat,
                modulus(ty) as nat,
            );
            finishes(m1, code, o, ty, Val::At(0));
        },
        BitOp::Band => {
            combines(m0, code, o, BinOp::And, ty, Val::Param(0), Val::Param(1));
            finishes(m0.step(code, o), code, o, ty, Val::At(0));
        },
        BitOp::Bor => {
            combines(m0, code, o, BinOp::Or, ty, Val::Param(0), Val::Param(1));
            finishes(m0.step(code, o), code, o, ty, Val::At(0));
        },
        BitOp::Bxor => {
            combines(m0, code, o, BinOp::Xor, ty, Val::Param(0), Val::Param(1));
            finishes(m0.step(code, o), code, o, ty, Val::At(0));
        },
        _ => {
            let form = if op == BitOp::Bsl {
                BinOp::Shl
            } else if signed {
                BinOp::AShr
            } else {
                BinOp::LShr
            };
            vstd::arithmetic::div_mod::lemma_mod_bound(
                ((x as u64) << (y as u64)) as int,
                modulus(ty),
            );
            vstd::arithmetic::div_mod::lemma_mod_bound(
                signed_value(ty, x as u64) / ((1u64 << (y as u64)) as int),
                modulus(ty),
            );
            if ty == LType::I64 {
                combines(m0, code, o, form, ty, Val::Param(0), Val::Param(1));
                finishes(m0.step(code, o), code, o, ty, Val::At(0));
            } else {
                converts(m0, code, o, CastOp::Trunc, LType::I64, Val::Param(1), ty);
                let m1 = m0.step(code, o);
                vstd::arithmetic::div_mod::lemma_small_mod(y as nat, modulus(ty) as nat);
                combines(m1, code, o, form, ty, Val::Param(0), Val::At(0));
                finishes(m1.step(code, o), code, o, ty, Val::At(1));
            }
        },
    }
}

/// `eq` gives back 1 where the two are equal and 0 elsewhere: integers and
/// truth values as words, floats as they compare, strings as the runtime
/// answers.
pub proof fn eq_tells_equals(o: Outside, memory: Memory, function: &IRFunction, e: EqualityImpl)
    requires
        function.params@.len() > 1,
        e == EqualityImpl::Bool || e == EqualityImpl::Int ==> 0 <= (o.values)(Val::Param(0)) <= u64::MAX && 0
            <= (o.values)(Val::Param(1)) <= u64::MAX,
    ensures
        ({
            let code = eq_code(start(), function, e);
            let ty = value_type(function.params@[0].ty);
            let (x, y) = ((o.values)(Val::Param(0)), (o.values)(Val::Param(1)));
            booted(code, memory).gives_back(
                code,
                o,
                bit(
                    match e {
                        EqualityImpl::Bool | EqualityImpl::Int => x == y,
                        EqualityImpl::Float => (o.floats.compare)(ty, x, y) == Some(0int),
                        EqualityImpl::String => (o.calls)(
                            Callee::Runtime(Rt::StringEq),
                            seq![x, y],
                            memory,
                        ).0 as u64 != 0,
                    },
                ) as int,
            )
        }),
{
    reveal(eq_code);
    let s = start();
    let code = eq_code(s, function, e);
    let ty = value_type(function.params@[0].ty);
    seek_finds(code.log, 0, 0, 0);
    let m0 = booted(code, memory);
    match e {
        EqualityImpl::Bool | EqualityImpl::Int => {
            tests(m0, code, o, Pred::Eq, ty, Val::Param(0), Val::Param(1));
            finishes(m0.step(code, o), code, o, LType::I1, Val::At(0));
        },
        EqualityImpl::Float => {
            floats(m0, code, o);
            finishes(m0.step(code, o), code, o, LType::I1, Val::At(0));
        },
        EqualityImpl::String => {
            let args = seq![(o.values)(Val::Param(0)), (o.values)(Val::Param(1))];
            assert(arguments(o, m0.results, a2(Val::Param(0), Val::Param(1))) =~= args) by {
                reveal_with_fuel(arguments, 4);
            }
            calls(m0, code, o, Callee::Runtime(Rt::StringEq), a2(Val::Param(0), Val::Param(1)));
            let m1 = m0.step(code, o);
            tests(m1, code, o, Pred::Ne, LType::I64, Val::At(0), num(0));
            finishes(m1.step(code, o), code, o, LType::I1, Val::At(1));
        },
    }
}

/// `format` of an integer gives back what the runtime makes of the same
/// number: of a signed one as a signed word, of an unsigned one as an
/// unsigned word.
pub proof fn format_hands_over_the_number(o: Outside, memory: Memory, function: &IRFunction, d: DebugImpl)
    requires
        function.params@.len() > 0,
        is_integer(function.params@[0].ty),
        is_word(function.params@[0].ty, (o.values)(Val::Param(0))),
        match function.params@[0].ty {
            IRType::Int8 | IRType::Int16 | IRType::Int32 | IRType::Int64 => d == DebugImpl::Signed,
            _ => d == DebugImpl::Unsigned,
        },
    ensures
        ({
            let code = format_code(start(), function, d);
            let x = integer(function.params@[0].ty, (o.values)(Val::Param(0)));
            let (helper, word) = if d == DebugImpl::Signed {
                (Rt::FormatI64, x % 0x1_0000_0000_0000_0000)
            } else {
                (Rt::FormatU64, x)
            };
            booted(code, memory).gives_back(
                code,
                o,
                (o.calls)(Callee::Runtime(helper), seq![word], memory).0,
            )
        }),
{
    reveal(format_code);
    let s = start();
    let code = format_code(s, function, d);
    let ty = value_type(function.params@[0].ty);
    let w = (o.values)(Val::Param(0));
    let x = integer(function.params@[0].ty, w);
    let (helper, word) = if d == DebugImpl::Signed {
        (Rt::FormatI64, x % 0x1_0000_0000_0000_0000)
    } else {
        (Rt::FormatU64, x)
    };
    seek_finds(code.log, 0, 0, 0);
    let m0 = booted(code, memory);
    vstd::arithmetic::div_mod::lemma_mod_bound(x, 0x1_0000_0000_0000_0000);
    if ty == LType::I64 {
        vstd::arithmetic::div_mod::lemma_mod_add_multiples_vanish(x, 0x1_0000_0000_0000_0000);
        vstd::arithmetic::div_mod::lemma_small_mod(w as nat, 0x1_0000_0000_0000_0000);
        assert(arguments(o, m0.results, a1(Val::Param(0))) =~= seq![word]) by {
            reveal_with_fuel(arguments, 3);
        }
        calls(m0, code, o, Callee::Runtime(helper), a1(Val::Param(0)));
        finishes(m0.step(code, o), code, o, LType::Ptr, Val::At(0));
    } else {
        let op = if d == DebugImpl::Signed {
            CastOp::SExt
        } else {
            CastOp::ZExt
        };
        converts(m0, code, o, op, ty, Val::Param(0), LType::I64);
        let m1 = m0.step(code, o);
        assert(arguments(o, m1.results, a1(Val::At(0))) =~= seq![word]) by {
            reveal_with_fuel(arguments, 3);
        }
        calls(m1, code, o, Callee::Runtime(helper), a1(Val::At(0)));
        finishes(m1.step(code, o), code, o, LType::Ptr, Val::At(1));
    }
}

} // verus!
