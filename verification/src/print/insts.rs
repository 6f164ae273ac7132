//! Instructions in text form. The n-th logged instruction defines `%vn`;
//! where a typed pointer is needed on the way, it is `%pn` or `%qn`.

use vstd::prelude::*;
use crate::ctx::EmitContext;
use crate::function::{function_return, return_type};

use crate::llvm::{Args, BinOp, Callee, Cases, CastOp, Checked, Edge, Inst, LType, Pred, Val};
use crate::print::types::{
    field_type, fn_type_text, put_fn_type, put_type, type_of_field, type_text,
};
use crate::print::values::{
    label_text, operand_text, put_label, put_operand, put_value, value_text, Names, Place,
};
use crate::runtime::{link_name, link_text, rt_params, rt_ret, rt_return, rt_sig};
use crate::text::{decimal, escaped, put, put_escaped, put_num, put_usize};
use crate::types::{value_basic_type, value_type};

verus! {

/// The mnemonic of a binary operator.
pub open spec fn bin_text(x: BinOp) -> Seq<char> {
    match x {
        BinOp::Add => "add"@,
        BinOp::Sub => "sub"@,
        BinOp::Mul => "mul"@,
        BinOp::UDiv => "udiv"@,
        BinOp::SDiv => "sdiv"@,
        BinOp::URem => "urem"@,
        BinOp::SRem => "srem"@,
        BinOp::And => "and"@,
        BinOp::Or => "or"@,
        BinOp::Xor => "xor"@,
        BinOp::Shl => "shl"@,
        BinOp::LShr => "lshr"@,
        BinOp::AShr => "ashr"@,
        BinOp::FAdd => "fadd"@,
        BinOp::FSub => "fsub"@,
        BinOp::FMul => "fmul"@,
        BinOp::FDiv => "fdiv"@,
        BinOp::FRem => "frem"@,
    }
}

/// The mnemonic of a binary operator.
pub fn bin_name(x: BinOp) -> (r: &'static str)
    ensures
        r@ == bin_text(x),
{
    match x {
        BinOp::Add => "add",
        BinOp::Sub => "sub",
        BinOp::Mul => "mul",
        BinOp::UDiv => "udiv",
        BinOp::SDiv => "sdiv",
        BinOp::URem => "urem",
        BinOp::SRem => "srem",
        BinOp::And => "and",
        BinOp::Or => "or",
        BinOp::Xor => "xor",
        BinOp::Shl => "shl",
        BinOp::LShr => "lshr",
        BinOp::AShr => "ashr",
        BinOp::FAdd => "fadd",
        BinOp::FSub => "fsub",
        BinOp::FMul => "fmul",
        BinOp::FDiv => "fdiv",
        BinOp::FRem => "frem",
    }
}

/// The mnemonic of a predicate.
pub open spec fn pred_text(x: Pred) -> Seq<char> {
    match x {
        Pred::Eq => "eq"@,
        Pred::Ne => "ne"@,
        Pred::Ugt => "ugt"@,
        Pred::Uge => "uge"@,
        Pred::Ult => "ult"@,
        Pred::Ule => "ule"@,
        Pred::Sgt => "sgt"@,
        Pred::Sge => "sge"@,
        Pred::Slt => "slt"@,
        Pred::Sle => "sle"@,
        Pred::Oeq => "oeq"@,
        Pred::One => "one"@,
        Pred::Une => "une"@,
        Pred::Ogt => "ogt"@,
        Pred::Oge => "oge"@,
        Pred::Olt => "olt"@,
        Pred::Ole => "ole"@,
        Pred::Uno => "uno"@,
        Pred::Ord => "ord"@,
    }
}

/// The mnemonic of a predicate.
pub fn pred_name(x: Pred) -> (r: &'static str)
    ensures
        r@ == pred_text(x),
{
    match x {
        Pred::Eq => "eq",
        Pred::Ne => "ne",
        Pred::Ugt => "ugt",
        Pred::Uge => "uge",
        Pred::Ult => "ult",
        Pred::Ule => "ule",
        Pred::Sgt => "sgt",
        Pred::Sge => "sge",
        Pred::Slt => "slt",
        Pred::Sle => "sle",
        Pred::Oeq => "oeq",
        Pred::One => "one",
        Pred::Une => "une",
        Pred::Ogt => "ogt",
        Pred::Oge => "oge",
        Pred::Olt => "olt",
        Pred::Ole => "ole",
        Pred::Uno => "uno",
        Pred::Ord => "ord",
    }
}

/// The mnemonic of a cast.
pub open spec fn cast_text(x: CastOp) -> Seq<char> {
    match x {
        CastOp::Trunc => "trunc"@,
        CastOp::ZExt => "zext"@,
        CastOp::SExt => "sext"@,
        CastOp::FPTrunc => "fptrunc"@,
        CastOp::FPExt => "fpext"@,
        CastOp::SIToFP => "sitofp"@,
        CastOp::UIToFP => "uitofp"@,
        CastOp::BitCast => "bitcast"@,
        CastOp::PtrToInt => "ptrtoint"@,
        CastOp::IntToPtr => "inttoptr"@,
    }
}

/// The mnemonic of a cast.
pub fn cast_name(x: CastOp) -> (r: &'static str)
    ensures
        r@ == cast_text(x),
{
    match x {
        CastOp::Trunc => "trunc",
        CastOp::ZExt => "zext",
        CastOp::SExt => "sext",
        CastOp::FPTrunc => "fptrunc",
        CastOp::FPExt => "fpext",
        CastOp::SIToFP => "sitofp",
        CastOp::UIToFP => "uitofp",
        CastOp::BitCast => "bitcast",
        CastOp::PtrToInt => "ptrtoint",
        CastOp::IntToPtr => "inttoptr",
    }
}

/// The intrinsic of a checked operation.
pub open spec fn checked_text(x: Checked) -> Seq<char> {
    match x {
        Checked::SAdd => "sadd"@,
        Checked::SSub => "ssub"@,
        Checked::SMul => "smul"@,
        Checked::UAdd => "uadd"@,
        Checked::USub => "usub"@,
        Checked::UMul => "umul"@,
    }
}

/// The intrinsic of a checked operation.
pub fn checked_name(x: Checked) -> (r: &'static str)
    ensures
        r@ == checked_text(x),
{
    match x {
        Checked::SAdd => "sadd",
        Checked::SSub => "ssub",
        Checked::SMul => "smul",
        Checked::UAdd => "uadd",
        Checked::USub => "usub",
        Checked::UMul => "umul",
    }
}

/// How a float type ends the name of an intrinsic.
pub open spec fn float_suffix(x: LType) -> Seq<char> {
    match x {
        LType::F32 => "f32"@,
        _ => "f64"@,
    }
}

/// How a float type ends the name of an intrinsic.
pub fn float_suffix_name(x: LType) -> (r: &'static str)
    ensures
        r@ == float_suffix(x),
{
    match x {
        LType::F32 => "f32",
        _ => "f64",
    }
}

/// What `o` says, then the beginning of a definition.
pub open spec fn target_text(o: Seq<char>, n: usize) -> Seq<char> {
    let o = o + "  %v"@;
    let o = o + decimal(n as nat);
    let o = o + " = "@;
    o
}

/// Appends the beginning of a definition.
fn put_target(out: &mut String, n: usize)
    ensures
        final(out)@ == target_text(old(out)@, n),
{
    put(out, "  %v");
    put_usize(out, n);
    put(out, " = ");
}

/// What `o` says, then the arguments from the `i`-th on, each with its
/// type. An argument without a parameter is an `i64`.
pub open spec fn args_text(
    c: &EmitContext,
    nm: Names,
    o: Seq<char>,
    types: Seq<LType>,
    i: nat,
    args: Args,
) -> Seq<char>
    decreases args,
{
    match args {
        Args::Nil => o,
        Args::Cons(val, rest) => {
            let o = if i > 0 {
                o + ", "@
            } else {
                o
            };
            let ty = if i < types.len() {
                types[i as int]
            } else {
                LType::I64
            };
            args_text(c, nm, operand_text(c, nm, o, ty, val), types, i + 1, *rest)
        },
    }
}

/// Appends arguments, each with its type.
fn put_args(
    c: &EmitContext,
    pl: &Place<'_>,
    out: &mut String,
    types: &Vec<LType>,
    first: bool,
    i: usize,
    args: &Args,
)
    requires
        i <= types@.len(),
        first ==> i == 0,
    ensures
        forall|k: nat|
            (first <==> k == 0) && (k == i || (k >= types@.len() && i == types@.len()))
                ==> final(out)@ == #[trigger] args_text(c, pl@, old(out)@, types@, k, *args),
    decreases args,
{
    match args {
        Args::Nil => {},
        Args::Cons(val, rest) => {
            if !first {
                put(out, ", ");
            }
            if i < types.len() {
                put_operand(c, pl, out, types[i], *val);
                put_args(c, pl, out, types, false, i + 1, rest);
            } else {
                put_operand(c, pl, out, LType::I64, *val);
                put_args(c, pl, out, types, false, i, rest);
            }
            assert forall|k: nat|
                (first <==> k == 0) && (k == i || (k >= types@.len() && i == types@.len()))
                    implies out@ == #[trigger] args_text(c, pl@, old(out)@, types@, k, *args) by {
                let next = (k + 1) as nat;
                let ty = if k < types@.len() {
                    types@[k as int]
                } else {
                    LType::I64
                };
                let o = if k > 0 {
                    old(out)@ + ", "@
                } else {
                    old(out)@
                };
                assert(out@ == args_text(
                    c,
                    pl@,
                    operand_text(c, pl@, o, ty, *val),
                    types@,
                    next,
                    **rest,
                ));
            }
        },
    }
}

/// What a closure of a signature takes: its environment and the
/// parameters.
pub open spec fn closure_params(c: &EmitContext, signature: usize) -> Seq<LType> {
    if signature < c.signatures@.len() {
        let params = c.signatures@[signature as int].params@;
        seq![LType::Ptr] + Seq::new(params.len(), |i: int| value_type(params[i]))
    } else {
        seq![LType::Ptr]
    }
}

/// What a closure of a signature takes.
pub fn closure_body_params(c: &EmitContext, signature: usize) -> (r: Vec<LType>)
    ensures
        r@ == closure_params(c, signature),
{
    let mut out: Vec<LType> = Vec::new();
    out.push(LType::Ptr);
    if signature < c.signatures.len() {
        let params = &c.signatures[signature].params;
        let ghost all = Seq::new(params@.len(), |i: int| value_type(params@[i]));
        let mut i: usize = 0;
        while i < params.len()
            invariant
                i <= params@.len(),
                all == Seq::new(params@.len(), |n: int| value_type(params@[n])),
                out@ == seq![LType::Ptr] + all.subrange(0, i as int),
            decreases params@.len() - i,
        {
            out.push(value_basic_type(params[i]));
            i = i + 1;
            assert(out@ =~= seq![LType::Ptr] + all.subrange(0, i as int));
        }
        assert(out@ =~= seq![LType::Ptr] + all);
    }
    assert(out@ =~= closure_params(c, signature));
    out
}

/// What `o` says, then the beginning of a call: its target where it has a
/// result, and its result type.
pub open spec fn call_head_text(c: &EmitContext, o: Seq<char>, n: usize, ret: LType) -> Seq<char> {
    let o = if ret == LType::Void {
        o + "  "@
    } else {
        target_text(o, n)
    };
    type_text(c, o + "call "@, ret) + " "@
}

fn put_call_head(c: &EmitContext, out: &mut String, n: usize, ret: LType)
    ensures
        final(out)@ == call_head_text(c, old(out)@, n, ret),
{
    if ret == LType::Void {
        put(out, "  ");
    } else {
        put_target(out, n);
    }
    put(out, "call ");
    put_type(c, out, ret);
    put(out, " ");
}

/// What `o` says, then a call.
pub open spec fn call_text(
    c: &EmitContext,
    nm: Names,
    o: Seq<char>,
    n: usize,
    callee: Callee,
    args: Args,
) -> Seq<char> {
    match callee {
        Callee::Function(k) => if k < c.declared@.len() {
            let d = c.declared@[k as int];
            let o = escaped(call_head_text(c, o, n, d.ret) + "@\""@, d.name@) + "\"("@;
            args_text(c, nm, o, d.params@, 0, args) + ")\n"@
        } else {
            o + "  unreachable\n"@
        },
        Callee::Runtime(rt) => {
            let o = call_head_text(c, o, n, rt_ret(rt)) + "@"@ + link_text(rt) + "("@;
            args_text(c, nm, o, rt_sig(rt), 0, args) + ")\n"@
        },
        Callee::Pointer(code, signature) => {
            let params = closure_params(c, signature);
            let ret = return_type(c.result_of(signature));
            let o = o + "  %p"@ + decimal(n as nat) + " = bitcast "@;
            let o = operand_text(c, nm, o, LType::Ptr, code) + " to "@;
            let o = fn_type_text(c, o, params, ret) + "*\n"@;
            let o = call_head_text(c, o, n, ret) + "%p"@ + decimal(n as nat) + "("@;
            args_text(c, nm, o, params, 0, args) + ")\n"@
        },
    }
}

fn put_call(c: &EmitContext, pl: &Place<'_>, out: &mut String, n: usize, callee: Callee, args: &Args)
    ensures
        final(out)@ == call_text(c, pl@, old(out)@, n, callee, *args),
{
    match callee {
        Callee::Function(k) => if k < c.declared.len() {
            put_call_head(c, out, n, c.declared[k].ret);
            put(out, "@\"");
            put_escaped(out, c.declared[k].name.as_str());
            put(out, "\"(");
            put_args(c, pl, out, &c.declared[k].params, true, 0, args);
            put(out, ")\n");
        } else {
            put(out, "  unreachable\n");
        },
        Callee::Runtime(rt) => {
            put_call_head(c, out, n, rt_return(rt));
            put(out, "@");
            put(out, link_name(rt));
            put(out, "(");
            let params = rt_params(rt);
            put_args(c, pl, out, &params, true, 0, args);
            put(out, ")\n");
        },
        Callee::Pointer(code, signature) => {
            let params = closure_body_params(c, signature);
            let ret = function_return(c.signature_return(signature));
            put(out, "  %p");
            put_usize(out, n);
            put(out, " = bitcast ");
            put_operand(c, pl, out, LType::Ptr, code);
            put(out, " to ");
            put_fn_type(c, out, &params, ret);
            put(out, "*\n");
            put_call_head(c, out, n, ret);
            put(out, "%p");
            put_usize(out, n);
            put(out, "(");
            put_args(c, pl, out, &params, true, 0, args);
            put(out, ")\n");
        },
    }
}

/// Some edge among the first `k` goes to the phi.
pub open spec fn has_edge(edges: Seq<Edge>, phi: Val, k: nat) -> bool
    decreases k,
{
    k > 0 && (edges[k - 1].phi == phi || has_edge(edges, phi, (k - 1) as nat))
}

/// What `o` says, then those of the first `k` edges that go to the phi.
pub open spec fn edges_text(
    c: &EmitContext,
    nm: Names,
    o: Seq<char>,
    edges: Seq<Edge>,
    phi: Val,
    k: nat,
) -> Seq<char>
    decreases k,
{
    if k == 0 {
        o
    } else {
        let done = edges_text(c, nm, o, edges, phi, (k - 1) as nat);
        let e = edges[k - 1];
        if e.phi == phi {
            let o = if has_edge(edges, phi, (k - 1) as nat) {
                done + ", [ "@
            } else {
                done + " [ "@
            };
            label_text(value_text(c, nm, o, e.value) + ", %"@, nm.labels, e.from as nat) + " ]"@
        } else {
            done
        }
    }
}

/// What `o` says, then a phi. One without edges stands in a block that
/// nothing goes to, and has no value.
pub open spec fn phi_text(c: &EmitContext, nm: Names, o: Seq<char>, n: usize, ty: LType, edges: Seq<
    Edge,
>) -> Seq<char> {
    if has_edge(edges, Val::At(n), edges.len()) {
        edges_text(
            c,
            nm,
            type_text(c, target_text(o, n) + "phi "@, ty),
            edges,
            Val::At(n),
            edges.len(),
        ) + "\n"@
    } else {
        type_text(c, target_text(o, n) + "freeze "@, ty) + " undef\n"@
    }
}

fn put_phi(c: &EmitContext, pl: &Place<'_>, out: &mut String, n: usize, ty: LType, edges: &Vec<Edge>)
    ensures
        final(out)@ == phi_text(c, pl@, old(out)@, n, ty, edges@),
{
    let mut any = false;
    let mut i: usize = 0;
    while i < edges.len()
        invariant
            i <= edges@.len(),
            any == has_edge(edges@, Val::At(n), i as nat),
        decreases edges@.len() - i,
    {
        if edges[i].phi == Val::At(n) {
            any = true;
        }
        i = i + 1;
    }
    put_target(out, n);
    if !any {
        put(out, "freeze ");
        put_type(c, out, ty);
        put(out, " undef\n");
        return;
    }
    put(out, "phi ");
    put_type(c, out, ty);
    let ghost head = out@;
    let mut more = false;
    let mut j: usize = 0;
    while j < edges.len()
        invariant
            j <= edges@.len(),
            more == has_edge(edges@, Val::At(n), j as nat),
            out@ == edges_text(c, pl@, head, edges@, Val::At(n), j as nat),
        decreases edges@.len() - j,
    {
        if edges[j].phi == Val::At(n) {
            if more {
                put(out, ", [ ");
            } else {
                put(out, " [ ");
            }
            put_value(c, pl, out, edges[j].value);
            put(out, ", %");
            put_label(out, pl.labels, edges[j].from);
            put(out, " ]");
            more = true;
        }
        j = j + 1;
    }
    put(out, "\n");
}

/// What `o` says, then the arms of a switch.
pub open spec fn cases_text(c: &EmitContext, nm: Names, o: Seq<char>, ty: LType, cases: Cases) -> Seq<char>
    decreases cases,
{
    match cases {
        Cases::Nil => o,
        Cases::Cons(value, block, rest) => {
            let o = type_text(c, o + "    "@, ty) + " "@ + decimal(value as nat) + ", label %"@;
            let o = label_text(o, nm.labels, block as nat) + "\n"@;
            cases_text(c, nm, o, ty, *rest)
        },
    }
}

fn put_cases(c: &EmitContext, pl: &Place<'_>, out: &mut String, ty: LType, cases: &Cases)
    ensures
        final(out)@ == cases_text(c, pl@, old(out)@, ty, *cases),
    decreases cases,
{
    match cases {
        Cases::Nil => {},
        Cases::Cons(value, block, rest) => {
            put(out, "    ");
            put_type(c, out, ty);
            put(out, " ");
            put_num(out, *value);
            put(out, ", label %");
            put_label(out, pl.labels, *block);
            put(out, "\n");
            put_cases(c, pl, out, ty, rest);
        },
    }
}

/// What `o` says, then a computation.
#[verifier::opaque]
pub open spec fn arith_text(c: &EmitContext, nm: Names, o: Seq<char>, n: usize, inst: Inst) -> Seq<char> {
    match inst {
        Inst::Bin(op, ty, a, b) => {
            let o = target_text(o, n);
            let o = o + bin_text(op);
            let o = o + " "@;
            let o = operand_text(c, nm, o, ty, a);
            let o = o + ", "@;
            let o = value_text(c, nm, o, b);
            let o = o + "\n"@;
            o
        },
        Inst::Neg(ty, a) => {
            let o = target_text(o, n);
            let o = o + "sub "@;
            let o = type_text(c, o, ty);
            let o = o + " 0, "@;
            let o = value_text(c, nm, o, a);
            let o = o + "\n"@;
            o
        },
        Inst::FNeg(ty, a) => {
            let o = target_text(o, n);
            let o = o + "fneg "@;
            let o = operand_text(c, nm, o, ty, a);
            let o = o + "\n"@;
            o
        },
        Inst::Not(ty, a) => {
            let o = target_text(o, n);
            let o = o + "xor "@;
            let o = operand_text(c, nm, o, ty, a);
            let o = o + ", -1\n"@;
            o
        },
        Inst::ITest(p, ty, a, b) => {
            let o = target_text(o, n);
            let o = o + "icmp "@;
            let o = o + pred_text(p);
            let o = o + " "@;
            let o = operand_text(c, nm, o, ty, a);
            let o = o + ", "@;
            let o = value_text(c, nm, o, b);
            let o = o + "\n"@;
            o
        },
        Inst::FTest(p, ty, a, b) => {
            let o = target_text(o, n);
            let o = o + "fcmp "@;
            let o = o + pred_text(p);
            let o = o + " "@;
            let o = operand_text(c, nm, o, ty, a);
            let o = o + ", "@;
            let o = value_text(c, nm, o, b);
            let o = o + "\n"@;
            o
        },
        Inst::Checked(op, ty, a, b) => {
            let o = target_text(o, n);
            let o = o + "call { "@;
            let o = type_text(c, o, ty);
            let o = o + ", i1 } @llvm."@;
            let o = o + checked_text(op);
            let o = o + ".with.overflow."@;
            let o = type_text(c, o, ty);
            let o = o + "("@;
            let o = operand_text(c, nm, o, ty, a);
            let o = o + ", "@;
            let o = operand_text(c, nm, o, ty, b);
            let o = o + ")\n"@;
            o
        },
        Inst::Overflowed(ty, a) => {
            let o = target_text(o, n);
            let o = o + "extractvalue { "@;
            let o = type_text(c, o, ty);
            let o = o + ", i1 } "@;
            let o = value_text(c, nm, o, a);
            let o = o + ", 1\n"@;
            o
        },
        Inst::Unchecked(ty, a) => {
            let o = target_text(o, n);
            let o = o + "extractvalue { "@;
            let o = type_text(c, o, ty);
            let o = o + ", i1 } "@;
            let o = value_text(c, nm, o, a);
            let o = o + ", 0\n"@;
            o
        },
        Inst::FAbs(ty, a) => {
            let o = target_text(o, n);
            let o = o + "call "@;
            let o = type_text(c, o, ty);
            let o = o + " @llvm.fabs."@;
            let o = o + float_suffix(ty);
            let o = o + "("@;
            let o = operand_text(c, nm, o, ty, a);
            let o = o + ")\n"@;
            o
        },
        Inst::Select(ty, p, a, b) => {
            let o = target_text(o, n);
            let o = o + "select "@;
            let o = operand_text(c, nm, o, LType::I1, p);
            let o = o + ", "@;
            let o = operand_text(c, nm, o, ty, a);
            let o = o + ", "@;
            let o = operand_text(c, nm, o, ty, b);
            let o = o + "\n"@;
            o
        },
        Inst::Cast(op, from, a, to) => {
            let o = target_text(o, n);
            let o = o + cast_text(op);
            let o = o + " "@;
            let o = operand_text(c, nm, o, from, a);
            let o = o + " to "@;
            let o = type_text(c, o, to);
            let o = o + "\n"@;
            o
        },
        _ => {
            o
        },
    }
}

/// Appends a computation.
fn put_arith(c: &EmitContext, pl: &Place<'_>, out: &mut String, n: usize, inst: &Inst)
    ensures
        final(out)@ == arith_text(c, pl@, old(out)@, n, *inst),
{
    proof {
        reveal(arith_text);
    }
    match inst {
        Inst::Bin(op, ty, a, b) => {
            put_target(out, n);
            put(out, bin_name(*op));
            put(out, " ");
            put_operand(c, pl, out, *ty, *a);
            put(out, ", ");
            put_value(c, pl, out, *b);
            put(out, "\n");
        },
        Inst::Neg(ty, a) => {
            put_target(out, n);
            put(out, "sub ");
            put_type(c, out, *ty);
            put(out, " 0, ");
            put_value(c, pl, out, *a);
            put(out, "\n");
        },
        Inst::FNeg(ty, a) => {
            put_target(out, n);
            put(out, "fneg ");
            put_operand(c, pl, out, *ty, *a);
            put(out, "\n");
        },
        Inst::Not(ty, a) => {
            put_target(out, n);
            put(out, "xor ");
            put_operand(c, pl, out, *ty, *a);
            put(out, ", -1\n");
        },
        Inst::ITest(p, ty, a, b) => {
            put_target(out, n);
            put(out, "icmp ");
            put(out, pred_name(*p));
            put(out, " ");
            put_operand(c, pl, out, *ty, *a);
            put(out, ", ");
            put_value(c, pl, out, *b);
            put(out, "\n");
        },
        Inst::FTest(p, ty, a, b) => {
            put_target(out, n);
            put(out, "fcmp ");
            put(out, pred_name(*p));
            put(out, " ");
            put_operand(c, pl, out, *ty, *a);
            put(out, ", ");
            put_value(c, pl, out, *b);
            put(out, "\n");
        },
        Inst::Checked(op, ty, a, b) => {
            put_target(out, n);
            put(out, "call { ");
            put_type(c, out, *ty);
            put(out, ", i1 } @llvm.");
            put(out, checked_name(*op));
            put(out, ".with.overflow.");
            put_type(c, out, *ty);
            put(out, "(");
            put_operand(c, pl, out, *ty, *a);
            put(out, ", ");
            put_operand(c, pl, out, *ty, *b);
            put(out, ")\n");
        },
        Inst::Overflowed(ty, a) => {
            put_target(out, n);
            put(out, "extractvalue { ");
            put_type(c, out, *ty);
            put(out, ", i1 } ");
            put_value(c, pl, out, *a);
            put(out, ", 1\n");
        },
        Inst::Unchecked(ty, a) => {
            put_target(out, n);
            put(out, "extractvalue { ");
            put_type(c, out, *ty);
            put(out, ", i1 } ");
            put_value(c, pl, out, *a);
            put(out, ", 0\n");
        },
        Inst::FAbs(ty, a) => {
            put_target(out, n);
            put(out, "call ");
            put_type(c, out, *ty);
            put(out, " @llvm.fabs.");
            put(out, float_suffix_name(*ty));
            put(out, "(");
            put_operand(c, pl, out, *ty, *a);
            put(out, ")\n");
        },
        Inst::Select(ty, p, a, b) => {
            put_target(out, n);
            put(out, "select ");
            put_operand(c, pl, out, LType::I1, *p);
            put(out, ", ");
            put_operand(c, pl, out, *ty, *a);
            put(out, ", ");
            put_operand(c, pl, out, *ty, *b);
            put(out, "\n");
        },
        Inst::Cast(op, from, a, to) => {
            put_target(out, n);
            put(out, cast_name(*op));
            put(out, " ");
            put_operand(c, pl, out, *from, *a);
            put(out, " to ");
            put_type(c, out, *to);
            put(out, "\n");
        },
        _ => {},
    }
}

/// What `o` says, then an access.
#[verifier::opaque]
pub open spec fn memory_text(c: &EmitContext, nm: Names, o: Seq<char>, n: usize, inst: Inst) -> Seq<char> {
    match inst {
        Inst::Gep(ty, p, i) => {
            let o = o + "  "@;
            let o = o + "%p"@ + decimal(n as nat);
            let o = o + " = bitcast "@;
            let o = operand_text(c, nm, o, LType::Ptr, p);
            let o = o + " to "@;
            let o = type_text(c, o, ty);
            let o = o + "*\n"@;
            let o = o + "  "@;
            let o = o + "%q"@ + decimal(n as nat);
            let o = o + " = getelementptr "@;
            let o = type_text(c, o, ty);
            let o = o + ", "@;
            let o = type_text(c, o, ty);
            let o = o + "* "@;
            let o = o + "%p"@ + decimal(n as nat);
            let o = o + ", "@;
            let o = operand_text(c, nm, o, LType::I64, i);
            let o = o + "\n"@;
            let o = target_text(o, n);
            let o = o + "bitcast "@;
            let o = type_text(c, o, ty);
            let o = o + "* "@;
            let o = o + "%q"@ + decimal(n as nat);
            let o = o + " to i8*\n"@;
            o
        },
        Inst::GepIn(ty, p, i) => {
            let o = o + "  "@;
            let o = o + "%p"@ + decimal(n as nat);
            let o = o + " = bitcast "@;
            let o = operand_text(c, nm, o, LType::Ptr, p);
            let o = o + " to "@;
            let o = type_text(c, o, ty);
            let o = o + "*\n"@;
            let o = o + "  "@;
            let o = o + "%q"@ + decimal(n as nat);
            let o = o + " = getelementptr inbounds "@;
            let o = type_text(c, o, ty);
            let o = o + ", "@;
            let o = type_text(c, o, ty);
            let o = o + "* "@;
            let o = o + "%p"@ + decimal(n as nat);
            let o = o + ", "@;
            let o = operand_text(c, nm, o, LType::I64, i);
            let o = o + "\n"@;
            let o = target_text(o, n);
            let o = o + "bitcast "@;
            let o = type_text(c, o, ty);
            let o = o + "* "@;
            let o = o + "%q"@ + decimal(n as nat);
            let o = o + " to i8*\n"@;
            o
        },
        Inst::Field(ty, p, i) => {
            let o = o + "  "@;
            let o = o + "%p"@ + decimal(n as nat);
            let o = o + " = bitcast "@;
            let o = operand_text(c, nm, o, LType::Ptr, p);
            let o = o + " to "@;
            let o = type_text(c, o, ty);
            let o = o + "*\n"@;
            let o = o + "  "@;
            let o = o + "%q"@ + decimal(n as nat);
            let o = o + " = getelementptr inbounds "@;
            let o = type_text(c, o, ty);
            let o = o + ", "@;
            let o = type_text(c, o, ty);
            let o = o + "* "@;
            let o = o + "%p"@ + decimal(n as nat);
            let o = o + ", i32 0, i32 "@;
            let o = o + decimal(i as nat);
            let o = o + "\n"@;
            let o = target_text(o, n);
            let o = o + "bitcast "@;
            let o = type_text(c, o, field_type(c, ty, i));
            let o = o + "* "@;
            let o = o + "%q"@ + decimal(n as nat);
            let o = o + " to i8*\n"@;
            o
        },
        Inst::Load(ty, p) => {
            let o = o + "  "@;
            let o = o + "%p"@ + decimal(n as nat);
            let o = o + " = bitcast "@;
            let o = operand_text(c, nm, o, LType::Ptr, p);
            let o = o + " to "@;
            let o = type_text(c, o, ty);
            let o = o + "*\n"@;
            let o = target_text(o, n);
            let o = o + "load "@;
            let o = type_text(c, o, ty);
            let o = o + ", "@;
            let o = type_text(c, o, ty);
            let o = o + "* "@;
            let o = o + "%p"@ + decimal(n as nat);
            let o = o + "\n"@;
            o
        },
        Inst::Store(ty, x, p) => {
            let o = o + "  "@;
            let o = o + "%p"@ + decimal(n as nat);
            let o = o + " = bitcast "@;
            let o = operand_text(c, nm, o, LType::Ptr, p);
            let o = o + " to "@;
            let o = type_text(c, o, ty);
            let o = o + "*\n"@;
            let o = o + "  store "@;
            let o = operand_text(c, nm, o, ty, x);
            let o = o + ", "@;
            let o = type_text(c, o, ty);
            let o = o + "* "@;
            let o = o + "%p"@ + decimal(n as nat);
            let o = o + "\n"@;
            o
        },
        Inst::Alloca(ty) => {
            let o = o + "  "@;
            let o = o + "%p"@ + decimal(n as nat);
            let o = o + " = alloca "@;
            let o = type_text(c, o, ty);
            let o = o + "\n"@;
            let o = target_text(o, n);
            let o = o + "bitcast "@;
            let o = type_text(c, o, ty);
            let o = o + "* "@;
            let o = o + "%p"@ + decimal(n as nat);
            let o = o + " to i8*\n"@;
            o
        },
        Inst::Extract(ty, x, i) => {
            let o = target_text(o, n);
            let o = o + "extractvalue "@;
            let o = operand_text(c, nm, o, ty, x);
            let o = o + ", "@;
            let o = o + decimal(i as nat);
            let o = o + "\n"@;
            o
        },
        Inst::Insert(ty, x, fty, y, i) => {
            let o = target_text(o, n);
            let o = o + "insertvalue "@;
            let o = operand_text(c, nm, o, ty, x);
            let o = o + ", "@;
            let o = operand_text(c, nm, o, fty, y);
            let o = o + ", "@;
            let o = o + decimal(i as nat);
            let o = o + "\n"@;
            o
        },
        _ => {
            o
        },
    }
}

/// Appends an access.
fn put_memory(c: &EmitContext, pl: &Place<'_>, out: &mut String, n: usize, inst: &Inst)
    ensures
        final(out)@ == memory_text(c, pl@, old(out)@, n, *inst),
{
    proof {
        reveal(memory_text);
    }
    match inst {
        Inst::Gep(ty, p, i) => {
            put(out, "  ");
            put(out, "%p");
            put_usize(out, n);
            put(out, " = bitcast ");
            put_operand(c, pl, out, LType::Ptr, *p);
            put(out, " to ");
            put_type(c, out, *ty);
            put(out, "*\n");
            put(out, "  ");
            put(out, "%q");
            put_usize(out, n);
            put(out, " = getelementptr ");
            put_type(c, out, *ty);
            put(out, ", ");
            put_type(c, out, *ty);
            put(out, "* ");
            put(out, "%p");
            put_usize(out, n);
            put(out, ", ");
            put_operand(c, pl, out, LType::I64, *i);
            put(out, "\n");
            put_target(out, n);
            put(out, "bitcast ");
            put_type(c, out, *ty);
            put(out, "* ");
            put(out, "%q");
            put_usize(out, n);
            put(out, " to i8*\n");
        },
        Inst::GepIn(ty, p, i) => {
            put(out, "  ");
            put(out, "%p");
            put_usize(out, n);
            put(out, " = bitcast ");
            put_operand(c, pl, out, LType::Ptr, *p);
            put(out, " to ");
            put_type(c, out, *ty);
            put(out, "*\n");
            put(out, "  ");
            put(out, "%q");
            put_usize(out, n);
            put(out, " = getelementptr inbounds ");
            put_type(c, out, *ty);
            put(out, ", ");
            put_type(c, out, *ty);
            put(out, "* ");
            put(out, "%p");
            put_usize(out, n);
            put(out, ", ");
            put_operand(c, pl, out, LType::I64, *i);
            put(out, "\n");
            put_target(out, n);
            put(out, "bitcast ");
            put_type(c, out, *ty);
            put(out, "* ");
            put(out, "%q");
            put_usize(out, n);
            put(out, " to i8*\n");
        },
        Inst::Field(ty, p, i) => {
            put(out, "  ");
            put(out, "%p");
            put_usize(out, n);
            put(out, " = bitcast ");
            put_operand(c, pl, out, LType::Ptr, *p);
            put(out, " to ");
            put_type(c, out, *ty);
            put(out, "*\n");
            put(out, "  ");
            put(out, "%q");
            put_usize(out, n);
            put(out, " = getelementptr inbounds ");
            put_type(c, out, *ty);
            put(out, ", ");
            put_type(c, out, *ty);
            put(out, "* ");
            put(out, "%p");
            put_usize(out, n);
            put(out, ", i32 0, i32 ");
            put_usize(out, *i);
            put(out, "\n");
            put_target(out, n);
            put(out, "bitcast ");
            put_type(c, out, type_of_field(c, *ty, *i));
            put(out, "* ");
            put(out, "%q");
            put_usize(out, n);
            put(out, " to i8*\n");
        },
        Inst::Load(ty, p) => {
            put(out, "  ");
            put(out, "%p");
            put_usize(out, n);
            put(out, " = bitcast ");
            put_operand(c, pl, out, LType::Ptr, *p);
            put(out, " to ");
            put_type(c, out, *ty);
            put(out, "*\n");
            put_target(out, n);
            put(out, "load ");
            put_type(c, out, *ty);
            put(out, ", ");
            put_type(c, out, *ty);
            put(out, "* ");
            put(out, "%p");
            put_usize(out, n);
            put(out, "\n");
        },
        Inst::Store(ty, x, p) => {
            put(out, "  ");
            put(out, "%p");
            put_usize(out, n);
            put(out, " = bitcast ");
            put_operand(c, pl, out, LType::Ptr, *p);
            put(out, " to ");
            put_type(c, out, *ty);
            put(out, "*\n");
            put(out, "  store ");
            put_operand(c, pl, out, *ty, *x);
            put(out, ", ");
            put_type(c, out, *ty);
            put(out, "* ");
            put(out, "%p");
            put_usize(out, n);
            put(out, "\n");
        },
        Inst::Alloca(ty) => {
            put(out, "  ");
            put(out, "%p");
            put_usize(out, n);
            put(out, " = alloca ");
            put_type(c, out, *ty);
            put(out, "\n");
            put_target(out, n);
            put(out, "bitcast ");
            put_type(c, out, *ty);
            put(out, "* ");
            put(out, "%p");
            put_usize(out, n);
            put(out, " to i8*\n");
        },
        Inst::Extract(ty, x, i) => {
            put_target(out, n);
            put(out, "extractvalue ");
            put_operand(c, pl, out, *ty, *x);
            put(out, ", ");
            put_usize(out, *i);
            put(out, "\n");
        },
        Inst::Insert(ty, x, fty, y, i) => {
            put_target(out, n);
            put(out, "insertvalue ");
            put_operand(c, pl, out, *ty, *x);
            put(out, ", ");
            put_operand(c, pl, out, *fty, *y);
            put(out, ", ");
            put_usize(out, *i);
            put(out, "\n");
        },
        _ => {},
    }
}

/// What `o` says, then a terminator.
#[verifier::opaque]
pub open spec fn control_text(c: &EmitContext, nm: Names, o: Seq<char>, n: usize, inst: Inst) -> Seq<char> {
    match inst {
        Inst::Br(b) => {
            let o = o + "  br label %"@;
            let o = label_text(o, nm.labels, b as nat);
            let o = o + "\n"@;
            o
        },
        Inst::CondBr(x, a, b) => {
            let o = o + "  br "@;
            let o = operand_text(c, nm, o, LType::I1, x);
            let o = o + ", label %"@;
            let o = label_text(o, nm.labels, a as nat);
            let o = o + ", label %"@;
            let o = label_text(o, nm.labels, b as nat);
            let o = o + "\n"@;
            o
        },
        Inst::Switch(ty, x, d, cases) => {
            let o = o + "  switch "@;
            let o = operand_text(c, nm, o, ty, x);
            let o = o + ", label %"@;
            let o = label_text(o, nm.labels, d as nat);
            let o = o + " [\n"@;
            let o = cases_text(c, nm, o, ty, cases);
            let o = o + "  ]\n"@;
            o
        },
        Inst::Ret(ty, x) => {
            let o = o + "  ret "@;
            let o = operand_text(c, nm, o, ty, x);
            let o = o + "\n"@;
            o
        },
        Inst::RetVoid => {
            let o = o + "  ret void\n"@;
            o
        },
        Inst::Unreachable => {
            let o = o + "  unreachable\n"@;
            o
        },
        _ => {
            o
        },
    }
}

/// Appends a terminator.
fn put_control(c: &EmitContext, pl: &Place<'_>, out: &mut String, n: usize, inst: &Inst)
    ensures
        final(out)@ == control_text(c, pl@, old(out)@, n, *inst),
{
    proof {
        reveal(control_text);
    }
    match inst {
        Inst::Br(b) => {
            put(out, "  br label %");
            put_label(out, pl.labels, *b);
            put(out, "\n");
        },
        Inst::CondBr(x, a, b) => {
            put(out, "  br ");
            put_operand(c, pl, out, LType::I1, *x);
            put(out, ", label %");
            put_label(out, pl.labels, *a);
            put(out, ", label %");
            put_label(out, pl.labels, *b);
            put(out, "\n");
        },
        Inst::Switch(ty, x, d, cases) => {
            put(out, "  switch ");
            put_operand(c, pl, out, *ty, *x);
            put(out, ", label %");
            put_label(out, pl.labels, *d);
            put(out, " [\n");
            put_cases(c, pl, out, *ty, cases);
            put(out, "  ]\n");
        },
        Inst::Ret(ty, x) => {
            put(out, "  ret ");
            put_operand(c, pl, out, *ty, *x);
            put(out, "\n");
        },
        Inst::RetVoid => {
            put(out, "  ret void\n");
        },
        Inst::Unreachable => {
            put(out, "  unreachable\n");
        },
        _ => {},
    }
}

/// What `o` says, then the n-th logged instruction.
pub open spec fn inst_text(
    c: &EmitContext,
    nm: Names,
    o: Seq<char>,
    edges: Seq<Edge>,
    n: usize,
    inst: Inst,
) -> Seq<char> {
    match inst {
        Inst::Call(callee, args) => call_text(c, nm, o, n, callee, args),
        Inst::Phi(ty) => phi_text(c, nm, o, n, ty, edges),
        Inst::Bin(..) | Inst::Neg(..) | Inst::FNeg(..) | Inst::Not(..) | Inst::ITest(..)
        | Inst::FTest(..) | Inst::Checked(..) | Inst::Overflowed(..) | Inst::Unchecked(..)
        | Inst::FAbs(..) | Inst::Select(..) | Inst::Cast(..) => arith_text(c, nm, o, n, inst),
        Inst::Br(..) | Inst::CondBr(..) | Inst::Switch(..) | Inst::Ret(..) | Inst::RetVoid
        | Inst::Unreachable => control_text(c, nm, o, n, inst),
        _ => memory_text(c, nm, o, n, inst),
    }
}

/// Appends the n-th logged instruction.
pub fn put_inst(
    c: &EmitContext,
    pl: &Place<'_>,
    out: &mut String,
    edges: &Vec<Edge>,
    n: usize,
    inst: &Inst,
)
    ensures
        final(out)@ == inst_text(c, pl@, old(out)@, edges@, n, *inst),
{
    match inst {
        Inst::Call(callee, args) => put_call(c, pl, out, n, *callee, args),
        Inst::Phi(ty) => put_phi(c, pl, out, n, *ty, edges),
        Inst::Bin(..) | Inst::Neg(..) | Inst::FNeg(..) | Inst::Not(..) | Inst::ITest(..)
        | Inst::FTest(..) | Inst::Checked(..) | Inst::Overflowed(..) | Inst::Unchecked(..)
        | Inst::FAbs(..) | Inst::Select(..) | Inst::Cast(..) => put_arith(c, pl, out, n, inst),
        Inst::Br(..) | Inst::CondBr(..) | Inst::Switch(..) | Inst::Ret(..) | Inst::RetVoid
        | Inst::Unreachable => put_control(c, pl, out, n, inst),
        _ => put_memory(c, pl, out, n, inst),
    }
}

} // verus!
