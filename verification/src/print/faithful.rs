//! The text of an instruction says what the instruction is.

use vstd::prelude::*;
use crate::ctx::EmitContext;
use crate::llvm::{BinOp, CastOp, Checked, Code, Edge, Inst, LType, Val};
use crate::print::insts::{arith_text, checked_text, control_text, float_suffix, inst_text};
use crate::print::read_back::{
    at_chars, at_join, begins, decimal_is_plain, free_of, piece, said, type_spells, type_word, value_spells, value_word,
};
use crate::print::read_calls::{
    arm_list, call_is_read, call_is_told, call_lines, phi_is_read, phi_line, switch_is_read,
};
use crate::print::read_lines::{
    alloca_is_read, at_another, begins_with, bin_is_read, br_is_read, cast_is_read, checked_spells,
    checked_type, cond_br_is_read, definition_is_read, extract_is_read, field_is_read, float_test_is_read,
    fneg_is_read, gep_in_is_read, gep_is_read, insert_is_read, int_test_is_read, list_ends, load_is_read,
    neg_is_read, not_is_read, one_line, operand_is_listed, operand_is_read, overflowed_is_read, ret_is_read,
    ret_void_is_read, select_is_read, star, store_is_read, told_call, type_begins, unchecked_is_read,
    unreachable_is_read, value_is_told,
};
use crate::print::reading::{at, lines_at, Line, Said, What};
use crate::print::types::{field_type, type_text};
use crate::print::values::{value_text, Names};
use crate::semantics::{branches, read, Machine, Outside};
use crate::text::decimal;
use crate::types::width_of;

verus! {

/// An integer type.
pub open spec fn is_int(ty: LType) -> bool {
    ty == LType::I1 || ty == LType::I8 || ty == LType::I16 || ty == LType::I32 || ty == LType::I64
}

/// The function of LLVM's that a checked operation calls.
pub open spec fn checked_function(c: &EmitContext, op: Checked, ty: LType) -> Seq<char> {
    "@llvm."@ + match op {
        Checked::SAdd => "sadd"@,
        Checked::SSub => "ssub"@,
        Checked::SMul => "smul"@,
        Checked::UAdd => "uadd"@,
        Checked::USub => "usub"@,
        Checked::UMul => "umul"@,
    } + ".with.overflow."@ + type_word(c, ty)
}

/// The function of LLVM's that gives the magnitude of a float.
pub open spec fn magnitude_function(ty: LType) -> Seq<char> {
    "@llvm.fabs."@ + if ty == LType::F32 {
        "f32"@
    } else {
        "f64"@
    }
}

/// A definition.
pub open spec fn defined(letter: char, n: nat, what: What) -> Line {
    Line::Define(letter, n, what)
}

/// An address as a pointer to a type.
pub open spec fn typed(c: &EmitContext, nm: Names, n: nat, p: Val, ty: LType) -> Line {
    Line::Define(
        'p',
        n,
        What::Cast(CastOp::BitCast, type_word(c, LType::Ptr), said(c, nm, p), star(type_word(c, ty))),
    )
}

/// The lines that an instruction is, as they are read. A pointer is a
/// plain address; where a typed one is needed, it is cast first, and what
/// comes out as a typed one is cast back.
pub open spec fn lines_of(c: &EmitContext, nm: Names, edges: Seq<Edge>, n: usize, inst: Inst) -> Seq<Line> {
    match inst {
        Inst::Bin(op, ty, a, b) => seq![defined('v', n as nat, What::Bin(op, type_word(c, ty), said(c, nm, a), said(c, nm, b)))],
        Inst::Neg(ty, a) => seq![defined('v', n as nat, What::Bin(BinOp::Sub, type_word(c, ty), Said::Number(0), said(c, nm, a)))],
        Inst::FNeg(ty, a) => seq![defined('v', n as nat, What::FNeg(type_word(c, ty), said(c, nm, a)))],
        Inst::Not(ty, a) => seq![defined('v', n as nat, What::Bin(BinOp::Xor, type_word(c, ty), said(c, nm, a), Said::Minus(1)))],
        Inst::ITest(pred, ty, a, b) => seq![defined('v', n as nat, What::IntTest(pred, type_word(c, ty), said(c, nm, a), said(c, nm, b)))],
        Inst::FTest(pred, ty, a, b) => seq![defined('v', n as nat, What::FloatTest(pred, type_word(c, ty), said(c, nm, a), said(c, nm, b)))],
        Inst::Checked(op, ty, a, b) => seq![
            defined('v', n as nat, 
                What::Call(
                    checked_type(type_word(c, ty)),
                    checked_function(c, op, ty),
                    seq![(type_word(c, ty), said(c, nm, a)), (type_word(c, ty), said(c, nm, b))],
                ),
            ),
        ],
        Inst::Overflowed(ty, a) => seq![defined('v', n as nat, What::Extract(checked_type(type_word(c, ty)), said(c, nm, a), 1))],
        Inst::Unchecked(ty, a) => seq![defined('v', n as nat, What::Extract(checked_type(type_word(c, ty)), said(c, nm, a), 0))],
        Inst::FAbs(ty, a) => seq![defined('v', n as nat, What::Call(type_word(c, ty), magnitude_function(ty), seq![(type_word(c, ty), said(c, nm, a))]))],
        Inst::Select(ty, p, a, b) => seq![
            defined('v', n as nat, What::Select((type_word(c, LType::I1), said(c, nm, p)), (type_word(c, ty), said(c, nm, a)), (type_word(c, ty), said(c, nm, b)))),
        ],
        Inst::Cast(op, from, a, to) => seq![defined('v', n as nat, What::Cast(op, type_word(c, from), said(c, nm, a), type_word(c, to)))],
        Inst::Gep(ty, p, i) => seq![
            typed(c, nm, n as nat, p, ty),
            defined('q', n as nat, What::Gep(false, type_word(c, ty), (star(type_word(c, ty)), Said::Local('p', n as nat)), seq![(type_word(c, LType::I64), said(c, nm, i))])),
            defined('v', n as nat, What::Cast(CastOp::BitCast, star(type_word(c, ty)), Said::Local('q', n as nat), type_word(c, LType::Ptr))),
        ],
        Inst::GepIn(ty, p, i) => seq![
            typed(c, nm, n as nat, p, ty),
            defined('q', n as nat, What::Gep(true, type_word(c, ty), (star(type_word(c, ty)), Said::Local('p', n as nat)), seq![(type_word(c, LType::I64), said(c, nm, i))])),
            defined('v', n as nat, What::Cast(CastOp::BitCast, star(type_word(c, ty)), Said::Local('q', n as nat), type_word(c, LType::Ptr))),
        ],
        Inst::Field(ty, p, i) => seq![
            typed(c, nm, n as nat, p, ty),
            defined('q', n as nat, 
                What::Gep(
                    true,
                    type_word(c, ty),
                    (star(type_word(c, ty)), Said::Local('p', n as nat)),
                    seq![(type_word(c, LType::I32), Said::Number(0)), (type_word(c, LType::I32), Said::Number(i as nat))],
                ),
            ),
            defined('v', n as nat, What::Cast(CastOp::BitCast, star(type_word(c, field_type(c, ty, i))), Said::Local('q', n as nat), type_word(c, LType::Ptr))),
        ],
        Inst::Load(ty, p) => seq![typed(c, nm, n as nat, p, ty), defined('v', n as nat, What::Load(type_word(c, ty), (star(type_word(c, ty)), Said::Local('p', n as nat))))],
        Inst::Store(ty, x, p) => seq![typed(c, nm, n as nat, p, ty), Line::Store((type_word(c, ty), said(c, nm, x)), (star(type_word(c, ty)), Said::Local('p', n as nat)))],
        Inst::Alloca(ty) => seq![
            Line::Define('p', n as nat, What::Alloca(type_word(c, ty))),
            defined('v', n as nat, What::Cast(CastOp::BitCast, star(type_word(c, ty)), Said::Local('p', n as nat), type_word(c, LType::Ptr))),
        ],
        Inst::Extract(ty, x, i) => seq![defined('v', n as nat, What::Extract(type_word(c, ty), said(c, nm, x), i as nat))],
        Inst::Insert(ty, x, fty, y, i) => seq![
            defined('v', n as nat, What::Insert((type_word(c, ty), said(c, nm, x)), (type_word(c, fty), said(c, nm, y)), i as nat)),
        ],
        Inst::Call(callee, args) => call_lines(c, nm, n as nat, callee, args),
        Inst::Phi(ty) => seq![phi_line(c, nm, n as nat, ty, edges)],
        Inst::Br(b) => seq![Line::Br(b as nat)],
        Inst::CondBr(x, yes, no) => seq![
            Line::CondBr((type_word(c, LType::I1), said(c, nm, x)), yes as nat, no as nat),
        ],
        Inst::Switch(ty, x, other, cases) => seq![
            Line::Switch((type_word(c, ty), said(c, nm, x)), other as nat, arm_list(c, ty, cases)),
        ],
        Inst::Ret(ty, x) => seq![Line::Ret(type_word(c, ty), said(c, nm, x))],
        Inst::RetVoid => seq![Line::RetVoid],
        Inst::Unreachable => seq![Line::Unreachable],
    }
}

/// The instruction can be spelled: it calls a declared function, and a
/// checked operation works on integers.
pub open spec fn can_be_spelled(c: &EmitContext, inst: Inst) -> bool {
    match inst {
        Inst::Call(crate::llvm::Callee::Function(k), _) => k < c.declared@.len(),
        Inst::Checked(_, ty, _, _) => is_int(ty),
        _ => true,
    }
}

/// The word of an integer type is `i` and its width.
pub proof fn integer_types_are_spelled(c: &EmitContext, ty: LType)
    requires
        is_int(ty),
    ensures
        type_word(c, ty) == seq!['i'] + decimal(width_of(ty) as nat),
{
    reveal(type_word);
    reveal_strlit("i1");
    reveal_strlit("i8");
    reveal_strlit("i16");
    reveal_strlit("i32");
    reveal_strlit("i64");
    assert(decimal(1) =~= seq!['1']);
    assert(decimal(8) =~= seq!['8']);
    assert(decimal(3) =~= seq!['3']);
    assert(decimal(6) =~= seq!['6']);
    assert(decimal(16) =~= seq!['1', '6']);
    assert(decimal(32) =~= seq!['3', '2']);
    assert(decimal(64) =~= seq!['6', '4']);
    assert(type_word(c, ty) =~= seq!['i'] + decimal(width_of(ty) as nat));
}

proof fn checked_names_are_plain(c: &EmitContext, op: Checked, ty: LType)
    requires
        is_int(ty),
    ensures
        free_of(checked_function(c, op, ty), '('),
        checked_function(c, op, ty) == "@llvm."@ + checked_text(op) + ".with.overflow."@ + type_word(c, ty),
{
    reveal_strlit("@llvm.");
    reveal_strlit(".with.overflow.");
    reveal_strlit("sadd");
    reveal_strlit("ssub");
    reveal_strlit("smul");
    reveal_strlit("uadd");
    reveal_strlit("usub");
    reveal_strlit("umul");
    integer_types_are_spelled(c, ty);
    decimal_is_plain(width_of(ty) as nat);
}

#[verifier::spinoff_prover]
#[verifier::rlimit(60)]
proof fn checked_is_read(
    t: Seq<char>,
    o: Seq<char>,
    c: &EmitContext,
    nm: Names,
    n: usize,
    op: Checked,
    ty: LType,
    a: Val,
    b: Val,
)
    requires
        is_int(ty),
        begins(t, arith_text(c, nm, o, n, Inst::Checked(op, ty, a, b))),
    ensures
        begins(t, o),
        lines_at(t, o.len() as int, 1) == Some(
            (
                lines_of(c, nm, Seq::empty(), n, Inst::Checked(op, ty, a, b)),
                arith_text(c, nm, o, n, Inst::Checked(op, ty, a, b)).len() as int,
            ),
        ),
{
    reveal(arith_text);
    reveal_strlit("  %v");
    reveal_strlit(" = ");
    reveal_strlit("call { ");
    reveal_strlit("call");
    reveal_strlit(" ");
    reveal_strlit("{ ");
    reveal_strlit(", i1 } @llvm.");
    reveal_strlit(", i1 }");
    reveal_strlit("@llvm.");
    reveal_strlit("(");
    reveal_strlit(", ");
    reveal_strlit(")\n");
    let d = decimal(n as nat);
    let w = type_word(c, ty);
    let o1 = o + "  %v"@;
    let o2 = o1 + d;
    let o3 = o2 + " = "@;
    let o4 = o3 + "call { "@;
    let o5 = type_text(c, o4, ty);
    let o6 = o5 + ", i1 } @llvm."@;
    let o7 = o6 + checked_text(op);
    let o8 = o7 + ".with.overflow."@;
    let o9 = type_text(c, o8, ty);
    let p0 = o9 + "("@;
    let p1 = type_text(c, p0, ty);
    let p2 = p1 + " "@;
    let p3 = value_text(c, nm, p2, a);
    let p4 = p3 + ", "@;
    let p5 = type_text(c, p4, ty);
    let p6 = p5 + " "@;
    let p7 = value_text(c, nm, p6, b);
    piece(t, p7, ")\n"@);
    value_spells(c, nm, p6, b);
    piece(t, p6, value_word(c, nm, b));
    piece(t, p5, " "@);
    type_spells(c, p4, ty);
    piece(t, p4, w);
    piece(t, p3, ", "@);
    value_spells(c, nm, p2, a);
    piece(t, p2, value_word(c, nm, a));
    piece(t, p1, " "@);
    type_spells(c, p0, ty);
    piece(t, p0, w);
    piece(t, o9, "("@);
    type_spells(c, o8, ty);
    piece(t, o8, w);
    piece(t, o7, ".with.overflow."@);
    piece(t, o6, checked_text(op));
    piece(t, o5, ", i1 } @llvm."@);
    type_spells(c, o4, ty);
    piece(t, o4, w);
    piece(t, o3, "call { "@);
    piece(t, o2, " = "@);
    piece(t, o1, d);
    piece(t, o, "  %v"@);
    let e = p7.len() + 2;
    list_ends(t, p7.len() as int, false, ")\n"@);
    value_is_told(t, p6.len() as int, c, nm, b, ")\n"@);
    value_is_told(t, p2.len() as int, c, nm, a, ", "@);
    operand_is_read(t, p4.len() as int, w, said(c, nm, b), p7.len() as int);
    operand_is_read(t, p0.len() as int, w, said(c, nm, a), p3.len() as int);
    at_another(t, p3.len() as int, ", "@, ")\n"@);
    at_chars(t, p7.len() as int, ")\n"@);
    let none: Seq<(Seq<char>, Said)> = Seq::empty();
    operand_is_listed(t, p3.len() as int, false, ")\n"@, w, said(c, nm, b), p7.len() as int, none, e as int);
    type_begins(c, ty);
    at_another(t, p0.len() as int, w, ")\n"@);
    at_chars(t, p3.len() as int, ", "@);
    operand_is_listed(
        t,
        p0.len() as int,
        true,
        ")\n"@,
        w,
        said(c, nm, a),
        p3.len() as int,
        seq![(w, said(c, nm, b))] + none,
        e as int,
    );
    let args = seq![(w, said(c, nm, a)), (w, said(c, nm, b))];
    assert(seq![(w, said(c, nm, a))] + (seq![(w, said(c, nm, b))] + none) =~= args);
    begins_with(t, o3.len() as int, "call { "@, "call"@, " "@ + "{ "@);
    begins_with(t, o3.len() as int + 4, " "@ + "{ "@, " "@, "{ "@);
    begins_with(t, o5.len() as int, ", i1 } @llvm."@, ", i1 }"@, " "@ + "@llvm."@);
    begins_with(t, o5.len() as int + 6, " "@ + "@llvm."@, " "@, "@llvm."@);
    at_join(t, o3.len() as int + 5, "{ "@, w);
    at_join(t, o3.len() as int + 5, "{ "@ + w, ", i1 }"@);
    checked_spells(w);
    let callee = checked_function(c, op, ty);
    let at_callee = o5.len() as int + 7;
    at_join(t, at_callee, "@llvm."@, checked_text(op));
    at_join(t, at_callee, "@llvm."@ + checked_text(op), ".with.overflow."@);
    at_join(t, at_callee, "@llvm."@ + checked_text(op) + ".with.overflow."@, w);
    checked_names_are_plain(c, op, ty);
    call_is_told(t, o3.len() as int + 5, checked_type(w), callee, args, e as int);
    told_call();
    definition_is_read(t, o.len() as int, "  %v"@, n as nat, "call"@, " "@);
    let line = Line::Define('v', n as nat, What::Call(checked_type(w), callee, args));
    one_line(t, o.len() as int, line, e as int);
    assert(lines_of(c, nm, Seq::empty(), n, Inst::Checked(op, ty, a, b)) =~= seq![line]);
}

proof fn magnitude_is_read(t: Seq<char>, o: Seq<char>, c: &EmitContext, nm: Names, n: usize, ty: LType, a: Val)
    requires
        begins(t, arith_text(c, nm, o, n, Inst::FAbs(ty, a))),
    ensures
        begins(t, o),
        lines_at(t, o.len() as int, 1) == Some(
            (
                lines_of(c, nm, Seq::empty(), n, Inst::FAbs(ty, a)),
                arith_text(c, nm, o, n, Inst::FAbs(ty, a)).len() as int,
            ),
        ),
{
    reveal(arith_text);
    reveal_strlit("  %v");
    reveal_strlit(" = ");
    reveal_strlit("call ");
    reveal_strlit("call");
    reveal_strlit(" ");
    reveal_strlit(" @llvm.fabs.");
    reveal_strlit("@llvm.fabs.");
    reveal_strlit("(");
    reveal_strlit(")\n");
    reveal_strlit("f32");
    reveal_strlit("f64");
    let d = decimal(n as nat);
    let w = type_word(c, ty);
    let o1 = o + "  %v"@;
    let o2 = o1 + d;
    let o3 = o2 + " = "@;
    let o4 = o3 + "call "@;
    let o5 = type_text(c, o4, ty);
    let o6 = o5 + " @llvm.fabs."@;
    let o7 = o6 + float_suffix(ty);
    let p0 = o7 + "("@;
    let p1 = type_text(c, p0, ty);
    let p2 = p1 + " "@;
    let p3 = value_text(c, nm, p2, a);
    piece(t, p3, ")\n"@);
    value_spells(c, nm, p2, a);
    piece(t, p2, value_word(c, nm, a));
    piece(t, p1, " "@);
    type_spells(c, p0, ty);
    piece(t, p0, w);
    piece(t, o7, "("@);
    piece(t, o6, float_suffix(ty));
    piece(t, o5, " @llvm.fabs."@);
    type_spells(c, o4, ty);
    piece(t, o4, w);
    piece(t, o3, "call "@);
    piece(t, o2, " = "@);
    piece(t, o1, d);
    piece(t, o, "  %v"@);
    let e = p3.len() as int + 2;
    list_ends(t, p3.len() as int, false, ")\n"@);
    value_is_told(t, p2.len() as int, c, nm, a, ")\n"@);
    operand_is_read(t, p0.len() as int, w, said(c, nm, a), p3.len() as int);
    at_chars(t, p3.len() as int, ")\n"@);
    let none: Seq<(Seq<char>, Said)> = Seq::empty();
    type_begins(c, ty);
    at_another(t, p0.len() as int, w, ")\n"@);
    operand_is_listed(t, p0.len() as int, true, ")\n"@, w, said(c, nm, a), p3.len() as int, none, e);
    let args = seq![(w, said(c, nm, a))];
    assert(seq![(w, said(c, nm, a))] + none =~= args);
    begins_with(t, o3.len() as int, "call "@, "call"@, " "@);
    begins_with(t, o5.len() as int, " @llvm.fabs."@, " "@, "@llvm.fabs."@);
    let callee = magnitude_function(ty);
    at_join(t, o5.len() as int + 1, "@llvm.fabs."@, float_suffix(ty));
    assert(callee =~= "@llvm.fabs."@ + float_suffix(ty));
    assert(free_of(callee, '('));
    call_is_told(t, o4.len() as int, w, callee, args, e);
    told_call();
    definition_is_read(t, o.len() as int, "  %v"@, n as nat, "call"@, " "@);
    let line = Line::Define('v', n as nat, What::Call(w, callee, args));
    one_line(t, o.len() as int, line, e);
    assert(lines_of(c, nm, Seq::empty(), n, Inst::FAbs(ty, a)) =~= seq![line]);
}

#[verifier::spinoff_prover]
#[verifier::rlimit(60)]
proof fn computation_is_read_back(
    t: Seq<char>,
    o: Seq<char>,
    c: &EmitContext,
    nm: Names,
    edges: Seq<Edge>,
    n: usize,
    inst: Inst,
)
    requires
        begins(t, inst_text(c, nm, o, edges, n, inst)),
        can_be_spelled(c, inst),
        match inst {
            Inst::Bin(..) | Inst::Neg(..) | Inst::FNeg(..) | Inst::Not(..) | Inst::ITest(..) | Inst::FTest(..) | Inst::Checked(..) | Inst::Overflowed(..) | Inst::Unchecked(..) | Inst::FAbs(..) | Inst::Select(..) | Inst::Cast(..) => true,
            _ => false,
        },
    ensures
        begins(t, o),
        lines_at(t, o.len() as int, lines_of(c, nm, edges, n, inst).len()) == Some(
            (lines_of(c, nm, edges, n, inst), inst_text(c, nm, o, edges, n, inst).len() as int),
        ),
{
    match inst {
        Inst::Bin(op, ty, a, b) => bin_is_read(t, o, c, nm, n, op, ty, a, b),
        Inst::Neg(ty, a) => neg_is_read(t, o, c, nm, n, ty, a),
        Inst::FNeg(ty, a) => fneg_is_read(t, o, c, nm, n, ty, a),
        Inst::Not(ty, a) => not_is_read(t, o, c, nm, n, ty, a),
        Inst::ITest(pred, ty, a, b) => int_test_is_read(t, o, c, nm, n, pred, ty, a, b),
        Inst::FTest(pred, ty, a, b) => float_test_is_read(t, o, c, nm, n, pred, ty, a, b),
        Inst::Checked(op, ty, a, b) => checked_is_read(t, o, c, nm, n, op, ty, a, b),
        Inst::Overflowed(ty, a) => overflowed_is_read(t, o, c, nm, n, ty, a),
        Inst::Unchecked(ty, a) => unchecked_is_read(t, o, c, nm, n, ty, a),
        Inst::FAbs(ty, a) => magnitude_is_read(t, o, c, nm, n, ty, a),
        Inst::Select(ty, p, a, b) => select_is_read(t, o, c, nm, n, ty, p, a, b),
        Inst::Cast(op, from, a, to) => cast_is_read(t, o, c, nm, n, op, from, a, to),
        _ => {},
    }
}

#[verifier::spinoff_prover]
#[verifier::rlimit(60)]
proof fn gep_is_read_back(t: Seq<char>, o: Seq<char>, c: &EmitContext, nm: Names, edges: Seq<Edge>, n: usize, ty: LType, p: Val, i: Val)
    requires
        begins(t, inst_text(c, nm, o, edges, n, Inst::Gep(ty, p, i))),
    ensures
        begins(t, o),
        lines_at(t, o.len() as int, lines_of(c, nm, edges, n, Inst::Gep(ty, p, i)).len()) == Some(
            (lines_of(c, nm, edges, n, Inst::Gep(ty, p, i)), inst_text(c, nm, o, edges, n, Inst::Gep(ty, p, i)).len() as int),
        ),
{
    gep_is_read(t, o, c, nm, n, ty, p, i);
}

#[verifier::spinoff_prover]
#[verifier::rlimit(60)]
proof fn gep_in_is_read_back(t: Seq<char>, o: Seq<char>, c: &EmitContext, nm: Names, edges: Seq<Edge>, n: usize, ty: LType, p: Val, i: Val)
    requires
        begins(t, inst_text(c, nm, o, edges, n, Inst::GepIn(ty, p, i))),
    ensures
        begins(t, o),
        lines_at(t, o.len() as int, lines_of(c, nm, edges, n, Inst::GepIn(ty, p, i)).len()) == Some(
            (lines_of(c, nm, edges, n, Inst::GepIn(ty, p, i)), inst_text(c, nm, o, edges, n, Inst::GepIn(ty, p, i)).len() as int),
        ),
{
    gep_in_is_read(t, o, c, nm, n, ty, p, i);
}

#[verifier::spinoff_prover]
#[verifier::rlimit(60)]
proof fn field_is_read_back(t: Seq<char>, o: Seq<char>, c: &EmitContext, nm: Names, edges: Seq<Edge>, n: usize, ty: LType, p: Val, i: usize)
    requires
        begins(t, inst_text(c, nm, o, edges, n, Inst::Field(ty, p, i))),
    ensures
        begins(t, o),
        lines_at(t, o.len() as int, lines_of(c, nm, edges, n, Inst::Field(ty, p, i)).len()) == Some(
            (lines_of(c, nm, edges, n, Inst::Field(ty, p, i)), inst_text(c, nm, o, edges, n, Inst::Field(ty, p, i)).len() as int),
        ),
{
    field_is_read(t, o, c, nm, n, ty, p, i);
}

#[verifier::spinoff_prover]
#[verifier::rlimit(60)]
proof fn load_is_read_back(t: Seq<char>, o: Seq<char>, c: &EmitContext, nm: Names, edges: Seq<Edge>, n: usize, ty: LType, p: Val)
    requires
        begins(t, inst_text(c, nm, o, edges, n, Inst::Load(ty, p))),
    ensures
        begins(t, o),
        lines_at(t, o.len() as int, lines_of(c, nm, edges, n, Inst::Load(ty, p)).len()) == Some(
            (lines_of(c, nm, edges, n, Inst::Load(ty, p)), inst_text(c, nm, o, edges, n, Inst::Load(ty, p)).len() as int),
        ),
{
    load_is_read(t, o, c, nm, n, ty, p);
}

#[verifier::spinoff_prover]
#[verifier::rlimit(60)]
proof fn store_is_read_back(t: Seq<char>, o: Seq<char>, c: &EmitContext, nm: Names, edges: Seq<Edge>, n: usize, ty: LType, x: Val, p: Val)
    requires
        begins(t, inst_text(c, nm, o, edges, n, Inst::Store(ty, x, p))),
    ensures
        begins(t, o),
        lines_at(t, o.len() as int, lines_of(c, nm, edges, n, Inst::Store(ty, x, p)).len()) == Some(
            (lines_of(c, nm, edges, n, Inst::Store(ty, x, p)), inst_text(c, nm, o, edges, n, Inst::Store(ty, x, p)).len() as int),
        ),
{
    store_is_read(t, o, c, nm, n, ty, x, p);
}

#[verifier::spinoff_prover]
#[verifier::rlimit(60)]
proof fn alloca_is_read_back(t: Seq<char>, o: Seq<char>, c: &EmitContext, nm: Names, edges: Seq<Edge>, n: usize, ty: LType)
    requires
        begins(t, inst_text(c, nm, o, edges, n, Inst::Alloca(ty))),
    ensures
        begins(t, o),
        lines_at(t, o.len() as int, lines_of(c, nm, edges, n, Inst::Alloca(ty)).len()) == Some(
            (lines_of(c, nm, edges, n, Inst::Alloca(ty)), inst_text(c, nm, o, edges, n, Inst::Alloca(ty)).len() as int),
        ),
{
    alloca_is_read(t, o, c, nm, n, ty);
}

#[verifier::spinoff_prover]
#[verifier::rlimit(60)]
proof fn extract_is_read_back(t: Seq<char>, o: Seq<char>, c: &EmitContext, nm: Names, edges: Seq<Edge>, n: usize, ty: LType, x: Val, i: usize)
    requires
        begins(t, inst_text(c, nm, o, edges, n, Inst::Extract(ty, x, i))),
    ensures
        begins(t, o),
        lines_at(t, o.len() as int, lines_of(c, nm, edges, n, Inst::Extract(ty, x, i)).len()) == Some(
            (lines_of(c, nm, edges, n, Inst::Extract(ty, x, i)), inst_text(c, nm, o, edges, n, Inst::Extract(ty, x, i)).len() as int),
        ),
{
    extract_is_read(t, o, c, nm, n, ty, x, i);
}

#[verifier::spinoff_prover]
#[verifier::rlimit(60)]
proof fn insert_is_read_back(t: Seq<char>, o: Seq<char>, c: &EmitContext, nm: Names, edges: Seq<Edge>, n: usize, ty: LType, x: Val, fty: LType, y: Val, i: usize)
    requires
        begins(t, inst_text(c, nm, o, edges, n, Inst::Insert(ty, x, fty, y, i))),
    ensures
        begins(t, o),
        lines_at(t, o.len() as int, lines_of(c, nm, edges, n, Inst::Insert(ty, x, fty, y, i)).len()) == Some(
            (lines_of(c, nm, edges, n, Inst::Insert(ty, x, fty, y, i)), inst_text(c, nm, o, edges, n, Inst::Insert(ty, x, fty, y, i)).len() as int),
        ),
{
    insert_is_read(t, o, c, nm, n, ty, x, fty, y, i);
}

#[verifier::spinoff_prover]
#[verifier::rlimit(60)]
proof fn access_is_read_back(
    t: Seq<char>,
    o: Seq<char>,
    c: &EmitContext,
    nm: Names,
    edges: Seq<Edge>,
    n: usize,
    inst: Inst,
)
    requires
        begins(t, inst_text(c, nm, o, edges, n, inst)),
        can_be_spelled(c, inst),
        match inst {
            Inst::Gep(..) | Inst::GepIn(..) | Inst::Field(..) | Inst::Load(..) | Inst::Store(..) | Inst::Alloca(..) | Inst::Extract(..) | Inst::Insert(..) => true,
            _ => false,
        },
    ensures
        begins(t, o),
        lines_at(t, o.len() as int, lines_of(c, nm, edges, n, inst).len()) == Some(
            (lines_of(c, nm, edges, n, inst), inst_text(c, nm, o, edges, n, inst).len() as int),
        ),
{
    match inst {
        Inst::Gep(ty, p, i) => gep_is_read_back(t, o, c, nm, edges, n, ty, p, i),
        Inst::GepIn(ty, p, i) => gep_in_is_read_back(t, o, c, nm, edges, n, ty, p, i),
        Inst::Field(ty, p, i) => field_is_read_back(t, o, c, nm, edges, n, ty, p, i),
        Inst::Load(ty, p) => load_is_read_back(t, o, c, nm, edges, n, ty, p),
        Inst::Store(ty, x, p) => store_is_read_back(t, o, c, nm, edges, n, ty, x, p),
        Inst::Alloca(ty) => alloca_is_read_back(t, o, c, nm, edges, n, ty),
        Inst::Extract(ty, x, i) => extract_is_read_back(t, o, c, nm, edges, n, ty, x, i),
        Inst::Insert(ty, x, fty, y, i) => insert_is_read_back(t, o, c, nm, edges, n, ty, x, fty, y, i),
        _ => {},
    }
}

#[verifier::spinoff_prover]
#[verifier::rlimit(60)]
proof fn control_is_read_back(
    t: Seq<char>,
    o: Seq<char>,
    c: &EmitContext,
    nm: Names,
    edges: Seq<Edge>,
    n: usize,
    inst: Inst,
)
    requires
        begins(t, inst_text(c, nm, o, edges, n, inst)),
        can_be_spelled(c, inst),
        match inst {
            Inst::Call(..) | Inst::Phi(..) | Inst::Br(..) | Inst::CondBr(..) | Inst::Switch(..) | Inst::Ret(..) | Inst::RetVoid | Inst::Unreachable => true,
            _ => false,
        },
    ensures
        begins(t, o),
        lines_at(t, o.len() as int, lines_of(c, nm, edges, n, inst).len()) == Some(
            (lines_of(c, nm, edges, n, inst), inst_text(c, nm, o, edges, n, inst).len() as int),
        ),
{
    match inst {
        Inst::Call(callee, args) => call_is_read(t, o, c, nm, n, callee, args),
        Inst::Phi(ty) => phi_is_read(t, o, c, nm, n, ty, edges),
        Inst::Br(b) => br_is_read(t, o, c, nm, n, b),
        Inst::CondBr(x, a, b) => cond_br_is_read(t, o, c, nm, n, x, a, b),
        Inst::Switch(ty, x, d, cases) => switch_is_read(t, o, c, nm, n, ty, x, d, cases),
        Inst::Ret(ty, x) => ret_is_read(t, o, c, nm, n, ty, x),
        Inst::RetVoid => ret_void_is_read(t, o, c, nm, n),
        Inst::Unreachable => {
            reveal(control_text);
            unreachable_is_read(t, o);
        },
        _ => {},
    }
}

/// Reading what is printed of an instruction gives back the instruction:
/// its operation, its operands each at its place, and the blocks it goes
/// to, the one taken where a condition is 1 first.
pub proof fn instruction_is_read_back(
    t: Seq<char>,
    o: Seq<char>,
    c: &EmitContext,
    nm: Names,
    edges: Seq<Edge>,
    n: usize,
    inst: Inst,
)
    requires
        begins(t, inst_text(c, nm, o, edges, n, inst)),
        can_be_spelled(c, inst),
    ensures
        begins(t, o),
        lines_at(t, o.len() as int, lines_of(c, nm, edges, n, inst).len()) == Some(
            (lines_of(c, nm, edges, n, inst), inst_text(c, nm, o, edges, n, inst).len() as int),
        ),
{
    match inst {
        Inst::Bin(..) | Inst::Neg(..) | Inst::FNeg(..) | Inst::Not(..) | Inst::ITest(..) | Inst::FTest(..) | Inst::Checked(..) | Inst::Overflowed(..) | Inst::Unchecked(..) | Inst::FAbs(..) | Inst::Select(..) | Inst::Cast(..) => computation_is_read_back(t, o, c, nm, edges, n, inst),
        Inst::Gep(..) | Inst::GepIn(..) | Inst::Field(..) | Inst::Load(..) | Inst::Store(..) | Inst::Alloca(..) | Inst::Extract(..) | Inst::Insert(..) => access_is_read_back(t, o, c, nm, edges, n, inst),
        Inst::Call(..) | Inst::Phi(..) | Inst::Br(..) | Inst::CondBr(..) | Inst::Switch(..) | Inst::Ret(..) | Inst::RetVoid | Inst::Unreachable => control_is_read_back(t, o, c, nm, edges, n, inst),
    }
}

/// The block that a line goes to on a word: a branch goes to its first
/// block where the word is 1 and to its second elsewhere, a switch to the
/// block of the first arm that names the word.
pub open spec fn goes_to(line: Line, x: int) -> Option<nat> {
    match line {
        Line::Br(b) => Some(b),
        Line::CondBr(_, yes, no) => Some(
            if x == 1 {
                yes
            } else {
                no
            },
        ),
        Line::Switch(_, other, arms) => Some(arm_of(arms, other, x)),
        _ => None,
    }
}

/// The block of the first arm that names the word.
pub open spec fn arm_of(arms: Seq<(Seq<char>, nat, nat)>, other: nat, x: int) -> nat
    decreases arms.len(),
{
    if arms.len() == 0 {
        other
    } else if arms[0].1 == x {
        arms[0].2
    } else {
        arm_of(arms.drop_first(), other, x)
    }
}

/// A run goes from a branch to the block that the printed line names for
/// the word of its condition.
pub proof fn run_goes_where_the_text_says(
    m: Machine,
    code: Code,
    o: Outside,
    t: Seq<char>,
    before: Seq<char>,
    c: &EmitContext,
    nm: Names,
    x: Val,
    yes: usize,
    no: usize,
)
    requires
        m.faces(code, Inst::CondBr(x, yes, no)),
        begins(
            t,
            inst_text(c, nm, before, code.edges, m.at as usize, Inst::CondBr(x, yes, no)),
        ),
    ensures
        lines_at(t, before.len() as int, 1) matches Some((lines, _)) && lines.len() == 1 && (goes_to(
            lines[0],
            read(o, m.results, x),
        ) matches Some(b) && m.step(code, o) == m.goes(code.log, b as usize)),
{
    cond_br_is_read(t, before, c, nm, m.at as usize, x, yes, no);
    branches(m, code, o, x, yes, no);
}

} // verus!
