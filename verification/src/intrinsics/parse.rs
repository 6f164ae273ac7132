//! `Int.parse` and `Float.parse`: the runtime helper parses into a stack
//! slot and answers with a code.

use vstd::prelude::*;
use crate::ctx::EmitContext;
use crate::error::{says, LlvmError};
use crate::intrinsics::params::{missing, nth_param};
use crate::intrinsics::result::{
    resolve_unit_error, result_fault, ret_ok, ret_ok_code, ret_unit_error, ret_unit_error_code,
    return_symbol, returns_result, unit_error, unit_error_fault,
};
use crate::ir::{IRFunction, IRSymbol, IRType, ParseTarget};
use crate::llvm::{a2, call, Body, Cases, Code, Inst, LType, Val};
use crate::runtime::Rt;

verus! {

/// The helper parsed a number.
pub const PARSE_OK: u64 = 1;

/// The helper read a number that does not fit.
pub const PARSE_OUT_OF_RANGE: u64 = 2;

/// The type a parse gives.
pub open spec fn parsed_type(target: ParseTarget) -> LType {
    match target {
        ParseTarget::Int => LType::I64,
        ParseTarget::Float => LType::F64,
    }
}

/// The function can be the parse.
#[verifier::opaque]
pub open spec fn parse_ok(c: &EmitContext, function: &IRFunction) -> bool {
    &&& function.params@.len() > 0
    &&& returns_result(c, function)
    &&& function.return_type matches IRType::Enum(r) && unit_error(c, r, "OutOfRange"@) is Some
        && unit_error(c, r, "InvalidFormat"@) is Some
}

/// What is said of a function that cannot be the parse.
pub open spec fn parse_fault(c: &EmitContext, function: &IRFunction) -> Seq<char> {
    if !returns_result(c, function) {
        result_fault(c, function, "parse intrinsic"@)
    } else if function.params@.len() == 0 {
        missing(c, function, 0, "input"@)
    } else {
        let r = function.return_type->Enum_0;
        unit_error_fault(
            c,
            function,
            if unit_error(c, r, "OutOfRange"@) is None {
                "OutOfRange"@
            } else {
                "InvalidFormat"@
            },
        )
    }
}

/// The body of a parse. The blocks are ok, out-of-range and invalid; any
/// code but the first two is an invalid format.
#[verifier::opaque]
pub open spec fn parse_code(c: &EmitContext, s: Code, target: ParseTarget, result: IRSymbol) -> Code {
    let ty = parsed_type(target);
    let helper = if target == ParseTarget::Int { Rt::IntParse } else { Rt::FloatParse };
    let t = s.slot(ty)
        .i(call(helper, a2(Val::Param(0), s.sv(0))))
        .word("ok"@).word("out_of_range"@).word("invalid"@)
        .i(
            Inst::Switch(
                LType::I64,
                s.v(0),
                s.b(2),
                Cases::Cons(
                    PARSE_OK,
                    s.b(0),
                    Box::new(Cases::Cons(PARSE_OUT_OF_RANGE, s.b(1), Box::new(Cases::Nil))),
                ),
            ),
        )
        .at(s.b(0))
        .i(Inst::Load(ty, s.sv(0)));
    let ok = ret_ok_code(c, t, result, s.v(2)).at(s.b(1));
    let range = ret_unit_error_code(c, ok, result, unit_error(c, result, "OutOfRange"@)->0).at(
        s.b(2),
    );
    ret_unit_error_code(c, range, result, unit_error(c, result, "InvalidFormat"@)->0)
}

/// Emits a parse.
pub fn emit_parse(c: &EmitContext, function: &IRFunction, f: &mut Body, target: ParseTarget) -> (r: Result<
    (),
    LlvmError,
>)
    ensures
        match r {
            Ok(()) => parse_ok(c, function) && final(f)@ == parse_code(
                c,
                old(f)@,
                target,
                function.return_type->Enum_0,
            ),
            Err(e) => !parse_ok(c, function) && says(e, parse_fault(c, function)) && final(f)@ == old(f)@,
        },
{
    proof {
        reveal(parse_ok);
        reveal(parse_code);
    }
    let result = return_symbol(c, function, "parse intrinsic")?;
    let input = nth_param(c, function, 0, "input")?;
    let out_of_range = resolve_unit_error(c, function, result, "OutOfRange")?;
    let invalid = resolve_unit_error(c, function, result, "InvalidFormat")?;
    let (helper, ty) = match target {
        ParseTarget::Int => (Rt::IntParse, LType::I64),
        ParseTarget::Float => (Rt::FloatParse, LType::F64),
    };
    let out = f.slot(ty);
    let code = f.ins(call(helper, a2(input, out)));
    let ok_bb = f.block("ok");
    let range_bb = f.block("out_of_range");
    let invalid_bb = f.block("invalid");
    let rest = Cases::Cons(PARSE_OUT_OF_RANGE, range_bb, Box::new(Cases::Nil));
    f.ins(Inst::Switch(LType::I64, code, invalid_bb, Cases::Cons(PARSE_OK, ok_bb, Box::new(rest))));

    f.at(ok_bb);
    let parsed = f.ins(Inst::Load(ty, out));
    ret_ok(c, f, result, parsed);
    f.at(range_bb);
    ret_unit_error(c, f, result, out_of_range);
    f.at(invalid_bb);
    ret_unit_error(c, f, result, invalid);
    Ok(())
}

} // verus!
