//! Direct calls of declared functions.

use vstd::prelude::*;
use crate::ctx::EmitContext;
use crate::emit::frame::{Frame, Scope};
use crate::emit::ops::{emit_finite_guard, finite_guard_code};
use crate::error::{says, LlvmError};
use crate::ir::{IRSymbol, ValueId};
use crate::llvm::{args_from, args_of, call_fn, num, Body, Code, LType, Val};
use crate::text::{concat2, concat3};

verus! {

/// What the program panics with when foreign code returns a float that is
/// not finite.
pub open spec fn foreign_float_fault(name: Seq<char>) -> Seq<char> {
    "non-finite float returned by "@ + name
}

/// A call. A callee that returns nothing stands for the inert zero; a
/// float that comes from foreign code is guarded.
pub open spec fn call_code(
    c: &EmitContext,
    s: Code,
    sc: Scope,
    args: Seq<ValueId>,
    callee: IRSymbol,
) -> Option<(Code, Val)> {
    match (c.function_of(callee), sc.all_values(args)) {
        (Some(k), Some(vals)) => {
            let t = s.i(call_fn(k, args_from(vals, 0)));
            let d = c.declared@[k as int];
            if d.ret == LType::Void {
                Some((t, num(0)))
            } else if d.foreign_float {
                Some((finite_guard_code(t, d.ret, s.v(0), foreign_float_fault(d.name@)), s.v(0)))
            } else {
                Some((t, s.v(0)))
            }
        },
        _ => None,
    }
}

/// What is said of a call that cannot be emitted.
pub open spec fn call_fault(c: &EmitContext, sc: Scope, args: Seq<ValueId>, callee: IRSymbol) -> Seq<
    char,
> {
    if c.function_of(callee) is None {
        "callee `"@ + c.mangled(callee) + "` is not declared"@
    } else {
        sc.missing_value(args, 0)
    }
}

/// Emits a call of a declared function.
pub fn emit_call(
    c: &EmitContext,
    f: &mut Body,
    fr: &Frame,
    args: &Vec<ValueId>,
    callee: IRSymbol,
) -> (r: Result<Val, LlvmError>)
    ensures
        match r {
            Ok(v) => call_code(c, old(f)@, fr@, args@, callee) == Some((final(f)@, v)),
            Err(e) => call_code(c, old(f)@, fr@, args@, callee) is None && says(
                e,
                call_fault(c, fr@, args@, callee),
            ),
        },
{
    let k: usize = match c.declared_function(callee) {
        Some(k) => k,
        None => {
            return Err(
                LlvmError::Codegen(concat3("callee `", c.name_of(callee), "` is not declared")),
            );
        },
    };
    let vals = fr.lookup_all(args)?;
    let result = f.ins(call_fn(k, args_of(&vals)));
    if c.declared[k].ret == LType::Void {
        Ok(num(0))
    } else {
        if c.declared[k].foreign_float {
            let message = concat2("non-finite float returned by ", c.declared[k].name.as_str());
            emit_finite_guard(f, c.declared[k].ret, result, message.as_str());
        }
        Ok(result)
    }
}

} // verus!
