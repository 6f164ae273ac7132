//! `Equality.eq`: integers and `Bool` compare as integers, floats with
//! the ordered predicate (`NaN == NaN` is false), strings byte by byte as
//! `==` does.

use vstd::prelude::*;
use crate::ctx::EmitContext;
use crate::error::{says, LlvmError};
use crate::intrinsics::params::{has_param, missing, nth_float, nth_int, nth_param, param_fault};
use crate::ir::{EqualityImpl, IRFunction};
use crate::llvm::{a2, call, itest, num, Body, Code, Inst, LType, Pred, Val};
use crate::runtime::Rt;
use crate::types::{value_basic_type, value_type, Kind};

verus! {

/// The function can be an `eq` of the kind.
#[verifier::opaque]
pub open spec fn eq_ok(function: &IRFunction, e: EqualityImpl) -> bool {
    match e {
        EqualityImpl::Bool | EqualityImpl::Int => has_param(function, 0, Kind::Int) && has_param(
            function,
            1,
            Kind::Int,
        ),
        EqualityImpl::Float => has_param(function, 0, Kind::Float) && has_param(
            function,
            1,
            Kind::Float,
        ),
        EqualityImpl::String => function.params@.len() > 1,
    }
}

/// What is said of a function that cannot be the `eq`.
pub open spec fn eq_fault(c: &EmitContext, function: &IRFunction, e: EqualityImpl) -> Seq<char> {
    match e {
        EqualityImpl::String => if function.params@.len() == 0 {
            missing(c, function, 0, "self"@)
        } else {
            missing(c, function, 1, "other"@)
        },
        _ => {
            let k = if e == EqualityImpl::Float {
                Kind::Float
            } else {
                Kind::Int
            };
            if has_param(function, 0, k) {
                param_fault(c, function, 1, "other"@, k)
            } else {
                param_fault(c, function, 0, "self"@, k)
            }
        },
    }
}

/// The body of an `eq`.
#[verifier::opaque]
pub open spec fn eq_code(s: Code, function: &IRFunction, e: EqualityImpl) -> Code {
    let ty = value_type(function.params@[0].ty);
    match e {
        EqualityImpl::Bool | EqualityImpl::Int => s.i(
            Inst::ITest(Pred::Eq, ty, Val::Param(0), Val::Param(1)),
        ).i(Inst::Ret(LType::I1, s.v(0))),
        EqualityImpl::Float => s.i(Inst::FTest(Pred::Oeq, ty, Val::Param(0), Val::Param(1))).i(
            Inst::Ret(LType::I1, s.v(0)),
        ),
        EqualityImpl::String => s.i(call(Rt::StringEq, a2(Val::Param(0), Val::Param(1))))
            .i(itest(Pred::Ne, s.v(0), num(0)))
            .i(Inst::Ret(LType::I1, s.v(1))),
    }
}

/// Emits an `eq`.
pub fn emit_eq(c: &EmitContext, function: &IRFunction, f: &mut Body, e: EqualityImpl) -> (r: Result<
    (),
    LlvmError,
>)
    ensures
        match r {
            Ok(()) => eq_ok(function, e) && final(f)@ == eq_code(old(f)@, function, e),
            Err(x) => !eq_ok(function, e) && says(x, eq_fault(c, function, e)) && final(f)@ == old(f)@,
        },
{
    proof {
        reveal(eq_ok);
        reveal(eq_code);
    }
    match e {
        EqualityImpl::Bool | EqualityImpl::Int => {
            let lhs = nth_int(c, function, 0, "self")?;
            let rhs = nth_int(c, function, 1, "other")?;
            let equal = f.ins(
                Inst::ITest(Pred::Eq, value_basic_type(function.params[0].ty), lhs, rhs),
            );
            f.ins(Inst::Ret(LType::I1, equal));
        },
        EqualityImpl::Float => {
            let lhs = nth_float(c, function, 0, "self")?;
            let rhs = nth_float(c, function, 1, "other")?;
            let equal = f.ins(
                Inst::FTest(Pred::Oeq, value_basic_type(function.params[0].ty), lhs, rhs),
            );
            f.ins(Inst::Ret(LType::I1, equal));
        },
        EqualityImpl::String => {
            let lhs = nth_param(c, function, 0, "self")?;
            let rhs = nth_param(c, function, 1, "other")?;
            let answer = f.ins(call(Rt::StringEq, a2(lhs, rhs)));
            let equal = f.ins(itest(Pred::Ne, answer, num(0)));
            f.ins(Inst::Ret(LType::I1, equal));
        },
    }
    Ok(())
}

} // verus!
