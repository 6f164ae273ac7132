//! Every line that is printed is read back as what it is for.

use vstd::prelude::*;
use crate::ctx::EmitContext;

use crate::llvm::{BinOp, CastOp, Inst, LType, Pred, Val};
use crate::print::insts::{arith_text, bin_text, cast_text, control_text, memory_text, pred_text};
use crate::print::read_back::{
    at_chars, at_join, at_split, begins, braces_go, common_types_are_spelled, ends_value,
    escaped_appends, flat_type_spells, free_of, integer_is_read, label_is_read, label_spells,
    label_word, local_is_read, not_at, number_is_read, ordinary_goes, piece, pointer_spells, said,
    spells_type, through_joins, type_is_read, type_spells, type_word, until_finds, value_is_read,
    value_spells, value_word, word_is_read,
};
use crate::print::reading::{
    at, bin_of, cast_of, done_at, ends_type, is_digit, line_at, lines_at, number_at, operand_at,
    operands_at, pair_at, pred_of, told_at, type_at, until, value_at, Line, Said, What,
};
use crate::print::types::{field_type, type_text};
use crate::print::values::{label_text, value_text, Names};

use crate::text::decimal;
use crate::types::value_type;

verus! {

/// The mnemonics, letter by letter.
pub proof fn spellings()
    ensures
        "add"@ =~= seq!['a', 'd', 'd'],
        "sub"@ =~= seq!['s', 'u', 'b'],
        "mul"@ =~= seq!['m', 'u', 'l'],
        "udiv"@ =~= seq!['u', 'd', 'i', 'v'],
        "sdiv"@ =~= seq!['s', 'd', 'i', 'v'],
        "urem"@ =~= seq!['u', 'r', 'e', 'm'],
        "srem"@ =~= seq!['s', 'r', 'e', 'm'],
        "and"@ =~= seq!['a', 'n', 'd'],
        "or"@ =~= seq!['o', 'r'],
        "xor"@ =~= seq!['x', 'o', 'r'],
        "shl"@ =~= seq!['s', 'h', 'l'],
        "lshr"@ =~= seq!['l', 's', 'h', 'r'],
        "ashr"@ =~= seq!['a', 's', 'h', 'r'],
        "fadd"@ =~= seq!['f', 'a', 'd', 'd'],
        "fsub"@ =~= seq!['f', 's', 'u', 'b'],
        "fmul"@ =~= seq!['f', 'm', 'u', 'l'],
        "fdiv"@ =~= seq!['f', 'd', 'i', 'v'],
        "frem"@ =~= seq!['f', 'r', 'e', 'm'],
        "trunc"@ =~= seq!['t', 'r', 'u', 'n', 'c'],
        "zext"@ =~= seq!['z', 'e', 'x', 't'],
        "sext"@ =~= seq!['s', 'e', 'x', 't'],
        "fptrunc"@ =~= seq!['f', 'p', 't', 'r', 'u', 'n', 'c'],
        "fpext"@ =~= seq!['f', 'p', 'e', 'x', 't'],
        "sitofp"@ =~= seq!['s', 'i', 't', 'o', 'f', 'p'],
        "uitofp"@ =~= seq!['u', 'i', 't', 'o', 'f', 'p'],
        "bitcast"@ =~= seq!['b', 'i', 't', 'c', 'a', 's', 't'],
        "ptrtoint"@ =~= seq!['p', 't', 'r', 't', 'o', 'i', 'n', 't'],
        "inttoptr"@ =~= seq!['i', 'n', 't', 't', 'o', 'p', 't', 'r'],
        "eq"@ =~= seq!['e', 'q'],
        "ne"@ =~= seq!['n', 'e'],
        "ugt"@ =~= seq!['u', 'g', 't'],
        "uge"@ =~= seq!['u', 'g', 'e'],
        "ult"@ =~= seq!['u', 'l', 't'],
        "ule"@ =~= seq!['u', 'l', 'e'],
        "sgt"@ =~= seq!['s', 'g', 't'],
        "sge"@ =~= seq!['s', 'g', 'e'],
        "slt"@ =~= seq!['s', 'l', 't'],
        "sle"@ =~= seq!['s', 'l', 'e'],
        "oeq"@ =~= seq!['o', 'e', 'q'],
        "one"@ =~= seq!['o', 'n', 'e'],
        "une"@ =~= seq!['u', 'n', 'e'],
        "ogt"@ =~= seq!['o', 'g', 't'],
        "oge"@ =~= seq!['o', 'g', 'e'],
        "olt"@ =~= seq!['o', 'l', 't'],
        "ole"@ =~= seq!['o', 'l', 'e'],
        "uno"@ =~= seq!['u', 'n', 'o'],
        "ord"@ =~= seq!['o', 'r', 'd'],
        "icmp"@ =~= seq!['i', 'c', 'm', 'p'],
        "fcmp"@ =~= seq!['f', 'c', 'm', 'p'],
        "call"@ =~= seq!['c', 'a', 'l', 'l'],
        "phi"@ =~= seq!['p', 'h', 'i'],
        "fneg"@ =~= seq!['f', 'n', 'e', 'g'],
        "freeze"@ =~= seq!['f', 'r', 'e', 'e', 'z', 'e'],
        "alloca"@ =~= seq!['a', 'l', 'l', 'o', 'c', 'a'],
        "load"@ =~= seq!['l', 'o', 'a', 'd'],
        "extractvalue"@ =~= seq!['e', 'x', 't', 'r', 'a', 'c', 't', 'v', 'a', 'l', 'u', 'e'],
        "insertvalue"@ =~= seq!['i', 'n', 's', 'e', 'r', 't', 'v', 'a', 'l', 'u', 'e'],
        "select"@ =~= seq!['s', 'e', 'l', 'e', 'c', 't'],
        "getelementptr"@ =~= seq!['g', 'e', 't', 'e', 'l', 'e', 'm', 'e', 'n', 't', 'p', 't', 'r'],
        "br"@ =~= seq!['b', 'r'],
        "switch"@ =~= seq!['s', 'w', 'i', 't', 'c', 'h'],
        "ret"@ =~= seq!['r', 'e', 't'],
        "store"@ =~= seq!['s', 't', 'o', 'r', 'e'],
        "unreachable"@ =~= seq!['u', 'n', 'r', 'e', 'a', 'c', 'h', 'a', 'b', 'l', 'e'],
{
    reveal_strlit("add");
    reveal_strlit("sub");
    reveal_strlit("mul");
    reveal_strlit("udiv");
    reveal_strlit("sdiv");
    reveal_strlit("urem");
    reveal_strlit("srem");
    reveal_strlit("and");
    reveal_strlit("or");
    reveal_strlit("xor");
    reveal_strlit("shl");
    reveal_strlit("lshr");
    reveal_strlit("ashr");
    reveal_strlit("fadd");
    reveal_strlit("fsub");
    reveal_strlit("fmul");
    reveal_strlit("fdiv");
    reveal_strlit("frem");
    reveal_strlit("trunc");
    reveal_strlit("zext");
    reveal_strlit("sext");
    reveal_strlit("fptrunc");
    reveal_strlit("fpext");
    reveal_strlit("sitofp");
    reveal_strlit("uitofp");
    reveal_strlit("bitcast");
    reveal_strlit("ptrtoint");
    reveal_strlit("inttoptr");
    reveal_strlit("eq");
    reveal_strlit("ne");
    reveal_strlit("ugt");
    reveal_strlit("uge");
    reveal_strlit("ult");
    reveal_strlit("ule");
    reveal_strlit("sgt");
    reveal_strlit("sge");
    reveal_strlit("slt");
    reveal_strlit("sle");
    reveal_strlit("oeq");
    reveal_strlit("one");
    reveal_strlit("une");
    reveal_strlit("ogt");
    reveal_strlit("oge");
    reveal_strlit("olt");
    reveal_strlit("ole");
    reveal_strlit("uno");
    reveal_strlit("ord");
    reveal_strlit("icmp");
    reveal_strlit("fcmp");
    reveal_strlit("call");
    reveal_strlit("phi");
    reveal_strlit("fneg");
    reveal_strlit("freeze");
    reveal_strlit("alloca");
    reveal_strlit("load");
    reveal_strlit("extractvalue");
    reveal_strlit("insertvalue");
    reveal_strlit("select");
    reveal_strlit("getelementptr");
    reveal_strlit("br");
    reveal_strlit("switch");
    reveal_strlit("ret");
    reveal_strlit("store");
    reveal_strlit("unreachable");
}

/// A mnemonic is a word.
#[verifier::opaque]
pub open spec fn mnemonic(w: Seq<char>) -> bool {
    free_of(w, ' ') && free_of(w, '\n') && w.len() > 0 && w[0] != '%'
}

/// The mnemonic of a binary operator tells which it is.
pub proof fn bin_is_told(op: BinOp)
    ensures
        bin_of(bin_text(op)) == Some(op),
        mnemonic(bin_text(op)),
{
    reveal(bin_of);
    reveal(mnemonic);
    spellings();
}

/// The mnemonic of a predicate tells which it is.
pub proof fn pred_is_told(op: Pred)
    ensures
        pred_of(pred_text(op)) == Some(op),
        mnemonic(pred_text(op)),
{
    reveal(pred_of);
    reveal(mnemonic);
    spellings();
}

/// The mnemonic of a cast tells which it is.
pub proof fn cast_is_told(op: CastOp)
    ensures
        cast_of(cast_text(op)) == Some(op),
        bin_of(cast_text(op)) is None,
        cast_text(op) != "icmp"@,
        cast_text(op) != "fcmp"@,
        mnemonic(cast_text(op)),
{
    reveal(bin_of);
    reveal(cast_of);
    reveal(mnemonic);
    spellings();
}

pub proof fn told_int_test()
    ensures
        bin_of("icmp"@) is None,
        cast_of("icmp"@) is None,
        mnemonic("icmp"@),
        "icmp"@ != "fcmp"@,
        "icmp"@ != "call"@,
        "icmp"@ != "phi"@,
        "icmp"@ != "fneg"@,
        "icmp"@ != "freeze"@,
        "icmp"@ != "alloca"@,
        "icmp"@ != "load"@,
        "icmp"@ != "extractvalue"@,
        "icmp"@ != "insertvalue"@,
        "icmp"@ != "select"@,
        "icmp"@ != "getelementptr"@,
{
    reveal(bin_of);
    reveal(cast_of);
    reveal(mnemonic);
    spellings();
}

pub proof fn told_float_test()
    ensures
        bin_of("fcmp"@) is None,
        cast_of("fcmp"@) is None,
        mnemonic("fcmp"@),
        "fcmp"@ != "icmp"@,
        "fcmp"@ != "call"@,
        "fcmp"@ != "phi"@,
        "fcmp"@ != "fneg"@,
        "fcmp"@ != "freeze"@,
        "fcmp"@ != "alloca"@,
        "fcmp"@ != "load"@,
        "fcmp"@ != "extractvalue"@,
        "fcmp"@ != "insertvalue"@,
        "fcmp"@ != "select"@,
        "fcmp"@ != "getelementptr"@,
{
    reveal(bin_of);
    reveal(cast_of);
    reveal(mnemonic);
    spellings();
}

pub proof fn told_call()
    ensures
        bin_of("call"@) is None,
        cast_of("call"@) is None,
        mnemonic("call"@),
        "call"@ != "icmp"@,
        "call"@ != "fcmp"@,
        "call"@ != "phi"@,
        "call"@ != "fneg"@,
        "call"@ != "freeze"@,
        "call"@ != "alloca"@,
        "call"@ != "load"@,
        "call"@ != "extractvalue"@,
        "call"@ != "insertvalue"@,
        "call"@ != "select"@,
        "call"@ != "getelementptr"@,
{
    reveal(bin_of);
    reveal(cast_of);
    reveal(mnemonic);
    spellings();
}

pub proof fn told_phi()
    ensures
        bin_of("phi"@) is None,
        cast_of("phi"@) is None,
        mnemonic("phi"@),
        "phi"@ != "icmp"@,
        "phi"@ != "fcmp"@,
        "phi"@ != "call"@,
        "phi"@ != "fneg"@,
        "phi"@ != "freeze"@,
        "phi"@ != "alloca"@,
        "phi"@ != "load"@,
        "phi"@ != "extractvalue"@,
        "phi"@ != "insertvalue"@,
        "phi"@ != "select"@,
        "phi"@ != "getelementptr"@,
{
    reveal(bin_of);
    reveal(cast_of);
    reveal(mnemonic);
    spellings();
}

pub proof fn told_fneg()
    ensures
        bin_of("fneg"@) is None,
        cast_of("fneg"@) is None,
        mnemonic("fneg"@),
        "fneg"@ != "icmp"@,
        "fneg"@ != "fcmp"@,
        "fneg"@ != "call"@,
        "fneg"@ != "phi"@,
        "fneg"@ != "freeze"@,
        "fneg"@ != "alloca"@,
        "fneg"@ != "load"@,
        "fneg"@ != "extractvalue"@,
        "fneg"@ != "insertvalue"@,
        "fneg"@ != "select"@,
        "fneg"@ != "getelementptr"@,
{
    reveal(bin_of);
    reveal(cast_of);
    reveal(mnemonic);
    spellings();
}

pub proof fn told_freeze()
    ensures
        bin_of("freeze"@) is None,
        cast_of("freeze"@) is None,
        mnemonic("freeze"@),
        "freeze"@ != "icmp"@,
        "freeze"@ != "fcmp"@,
        "freeze"@ != "call"@,
        "freeze"@ != "phi"@,
        "freeze"@ != "fneg"@,
        "freeze"@ != "alloca"@,
        "freeze"@ != "load"@,
        "freeze"@ != "extractvalue"@,
        "freeze"@ != "insertvalue"@,
        "freeze"@ != "select"@,
        "freeze"@ != "getelementptr"@,
{
    reveal(bin_of);
    reveal(cast_of);
    reveal(mnemonic);
    spellings();
}

pub proof fn told_alloca()
    ensures
        bin_of("alloca"@) is None,
        cast_of("alloca"@) is None,
        mnemonic("alloca"@),
        "alloca"@ != "icmp"@,
        "alloca"@ != "fcmp"@,
        "alloca"@ != "call"@,
        "alloca"@ != "phi"@,
        "alloca"@ != "fneg"@,
        "alloca"@ != "freeze"@,
        "alloca"@ != "load"@,
        "alloca"@ != "extractvalue"@,
        "alloca"@ != "insertvalue"@,
        "alloca"@ != "select"@,
        "alloca"@ != "getelementptr"@,
{
    reveal(bin_of);
    reveal(cast_of);
    reveal(mnemonic);
    spellings();
}

pub proof fn told_load()
    ensures
        bin_of("load"@) is None,
        cast_of("load"@) is None,
        mnemonic("load"@),
        "load"@ != "icmp"@,
        "load"@ != "fcmp"@,
        "load"@ != "call"@,
        "load"@ != "phi"@,
        "load"@ != "fneg"@,
        "load"@ != "freeze"@,
        "load"@ != "alloca"@,
        "load"@ != "extractvalue"@,
        "load"@ != "insertvalue"@,
        "load"@ != "select"@,
        "load"@ != "getelementptr"@,
{
    reveal(bin_of);
    reveal(cast_of);
    reveal(mnemonic);
    spellings();
}

pub proof fn told_extractvalue()
    ensures
        bin_of("extractvalue"@) is None,
        cast_of("extractvalue"@) is None,
        mnemonic("extractvalue"@),
        "extractvalue"@ != "icmp"@,
        "extractvalue"@ != "fcmp"@,
        "extractvalue"@ != "call"@,
        "extractvalue"@ != "phi"@,
        "extractvalue"@ != "fneg"@,
        "extractvalue"@ != "freeze"@,
        "extractvalue"@ != "alloca"@,
        "extractvalue"@ != "load"@,
        "extractvalue"@ != "insertvalue"@,
        "extractvalue"@ != "select"@,
        "extractvalue"@ != "getelementptr"@,
{
    reveal(bin_of);
    reveal(cast_of);
    reveal(mnemonic);
    spellings();
}

pub proof fn told_insertvalue()
    ensures
        bin_of("insertvalue"@) is None,
        cast_of("insertvalue"@) is None,
        mnemonic("insertvalue"@),
        "insertvalue"@ != "icmp"@,
        "insertvalue"@ != "fcmp"@,
        "insertvalue"@ != "call"@,
        "insertvalue"@ != "phi"@,
        "insertvalue"@ != "fneg"@,
        "insertvalue"@ != "freeze"@,
        "insertvalue"@ != "alloca"@,
        "insertvalue"@ != "load"@,
        "insertvalue"@ != "extractvalue"@,
        "insertvalue"@ != "select"@,
        "insertvalue"@ != "getelementptr"@,
{
    reveal(bin_of);
    reveal(cast_of);
    reveal(mnemonic);
    spellings();
}

pub proof fn told_select()
    ensures
        bin_of("select"@) is None,
        cast_of("select"@) is None,
        mnemonic("select"@),
        "select"@ != "icmp"@,
        "select"@ != "fcmp"@,
        "select"@ != "call"@,
        "select"@ != "phi"@,
        "select"@ != "fneg"@,
        "select"@ != "freeze"@,
        "select"@ != "alloca"@,
        "select"@ != "load"@,
        "select"@ != "extractvalue"@,
        "select"@ != "insertvalue"@,
        "select"@ != "getelementptr"@,
{
    reveal(bin_of);
    reveal(cast_of);
    reveal(mnemonic);
    spellings();
}

pub proof fn told_getelementptr()
    ensures
        bin_of("getelementptr"@) is None,
        cast_of("getelementptr"@) is None,
        mnemonic("getelementptr"@),
        "getelementptr"@ != "icmp"@,
        "getelementptr"@ != "fcmp"@,
        "getelementptr"@ != "call"@,
        "getelementptr"@ != "phi"@,
        "getelementptr"@ != "fneg"@,
        "getelementptr"@ != "freeze"@,
        "getelementptr"@ != "alloca"@,
        "getelementptr"@ != "load"@,
        "getelementptr"@ != "extractvalue"@,
        "getelementptr"@ != "insertvalue"@,
        "getelementptr"@ != "select"@,
{
    reveal(bin_of);
    reveal(cast_of);
    reveal(mnemonic);
    spellings();
}

pub proof fn done_br()
    ensures
        mnemonic("br"@),
        "br"@ != "switch"@,
        "br"@ != "ret"@,
        "br"@ != "store"@,
        "br"@ != "call"@,
        "br"@ != "unreachable"@,
{
    reveal(mnemonic);
    spellings();
}

pub proof fn done_switch()
    ensures
        mnemonic("switch"@),
        "switch"@ != "br"@,
        "switch"@ != "ret"@,
        "switch"@ != "store"@,
        "switch"@ != "call"@,
        "switch"@ != "unreachable"@,
{
    reveal(mnemonic);
    spellings();
}

pub proof fn done_ret()
    ensures
        mnemonic("ret"@),
        "ret"@ != "br"@,
        "ret"@ != "switch"@,
        "ret"@ != "store"@,
        "ret"@ != "call"@,
        "ret"@ != "unreachable"@,
{
    reveal(mnemonic);
    spellings();
}

pub proof fn done_store()
    ensures
        mnemonic("store"@),
        "store"@ != "br"@,
        "store"@ != "switch"@,
        "store"@ != "ret"@,
        "store"@ != "call"@,
        "store"@ != "unreachable"@,
{
    reveal(mnemonic);
    spellings();
}

pub proof fn done_call()
    ensures
        mnemonic("call"@),
        "call"@ != "br"@,
        "call"@ != "switch"@,
        "call"@ != "ret"@,
        "call"@ != "store"@,
        "call"@ != "unreachable"@,
{
    reveal(mnemonic);
    spellings();
}

pub proof fn done_unreachable()
    ensures
        mnemonic("unreachable"@),
        "unreachable"@ != "br"@,
        "unreachable"@ != "switch"@,
        "unreachable"@ != "ret"@,
        "unreachable"@ != "store"@,
        "unreachable"@ != "call"@,
{
    reveal(mnemonic);
    spellings();
}

/// A type and an operand behind it.
pub proof fn operand_is_read(t: Seq<char>, p: int, ty: Seq<char>, v: Said, e: int)
    requires
        spells_type(ty),
        at(t, p, ty),
        at(t, p + ty.len(), " "@),
        value_at(t, p + ty.len() + 1) == Some((v, e)),
    ensures
        operand_at(t, p) == Some((ty, v, e)),
{
    reveal(operand_at);
    reveal(type_at);
    reveal(spells_type);
    reveal_strlit(" ");
    at_chars(t, p + ty.len(), " "@);
    assert(" "@[0] == t[p + ty.len() + 0]);
    type_is_read(t, p, ty);
}

/// A type up to what follows it.
pub proof fn type_is_told(t: Seq<char>, p: int, ty: Seq<char>, next: Seq<char>)
    requires
        spells_type(ty),
        at(t, p, ty),
        at(t, p + ty.len(), next),
        next.len() > 0,
        ends_type(next[0]),
    ensures
        type_at(t, p) == (ty, p + ty.len()),
{
    reveal(type_at);
    reveal(spells_type);
    at_chars(t, p + ty.len(), next);
    assert(next[0] == t[p + ty.len() + 0]);
    type_is_read(t, p, ty);
}

/// An operand up to what follows it.
pub proof fn value_is_told(t: Seq<char>, p: int, c: &EmitContext, nm: Names, v: Val, next: Seq<char>)
    requires
        at(t, p, value_word(c, nm, v)),
        at(t, p + value_word(c, nm, v).len(), next),
        next.len() > 0,
        ends_value(next[0]),
    ensures
        value_at(t, p) == Some((said(c, nm, v), p + value_word(c, nm, v).len())),
{
    let e = p + value_word(c, nm, v).len();
    at_chars(t, e, next);
    assert(next[0] == t[e + 0]);
    value_is_read(t, p, c, nm, v);
}

/// A number up to what follows it.
pub proof fn number_is_told(t: Seq<char>, p: int, n: nat, next: Seq<char>)
    requires
        at(t, p, decimal(n)),
        at(t, p + decimal(n).len(), next),
        next.len() > 0,
        !is_digit(next[0]),
    ensures
        number_at(t, p) == Some((n, p + decimal(n).len())),
{
    reveal(number_at);
    at_chars(t, p + decimal(n).len(), next);
    assert(next[0] == t[p + decimal(n).len() + 0]);
    number_is_read(t, p, n);
}

/// A name of a result or of an address on the way.
pub proof fn local_is_told(t: Seq<char>, p: int, h: Seq<char>, n: nat, next: Seq<char>)
    requires
        h.len() == 2,
        h[0] == '%',
        at(t, p, h),
        at(t, p + 2, decimal(n)),
        at(t, p + 2 + decimal(n).len(), next),
        next.len() > 0,
        ends_value(next[0]),
    ensures
        value_at(t, p) == Some((Said::Local(h[1], n), p + 2 + decimal(n).len())),
{
    let e = p + 2 + decimal(n).len();
    at_chars(t, e, next);
    assert(next[0] == t[e + 0]);
    at_join(t, p, h, decimal(n));
    assert(h =~= seq!['%', h[1]]);
    local_is_read(t, p, h[1], n);
}

/// A word that begins with another has it.
pub proof fn begins_with(t: Seq<char>, p: int, w: Seq<char>, a: Seq<char>, b: Seq<char>)
    requires
        at(t, p, w),
        w =~= a + b,
    ensures
        at(t, p, a),
        at(t, p + a.len(), b),
{
    at_split(t, p, a, b);
}

/// The beginning of a definition.
pub proof fn definition_is_read(t: Seq<char>, p: int, h: Seq<char>, n: nat, w: Seq<char>, next: Seq<char>)
    requires
        at(t, p, h),
        h.len() == 4,
        h[0] == ' ' && h[1] == ' ' && h[2] == '%',
        at(t, p + 4, decimal(n)),
        at(t, p + 4 + decimal(n).len(), " = "@),
        at(t, p + 7 + decimal(n).len(), w),
        at(t, p + 7 + decimal(n).len() + w.len(), next),
        next.len() > 0,
        next[0] == ' ',
        mnemonic(w),
    ensures
        line_at(t, p) == match told_at(t, w, p + 8 + decimal(n).len() + w.len()) {
            Some((what, e)) => Some((Line::Define(h[3], n, what), e)),
            None => None,
        },
{
    reveal(line_at);
    reveal(mnemonic);
    reveal_strlit("  ");
    reveal_strlit("%");
    reveal_strlit(" = ");
    let q = p + 4 + decimal(n).len();
    begins_with(t, p, h, "  "@, h.subrange(2, 4));
    begins_with(t, p + 2, h.subrange(2, 4), "%"@, h.subrange(3, 4));
    at_chars(t, p, h);
    assert(h[3] == t[p + 3]);
    number_is_told(t, p + 4, n, " = "@);
    at_chars(t, q + 3 + w.len(), next);
    assert(next[0] == t[q + 3 + w.len() + 0]);
    word_is_read(t, q + 3, w);
}

/// The beginning of a line that defines nothing.
pub proof fn doing_is_read(t: Seq<char>, p: int, w: Seq<char>, next: Seq<char>)
    requires
        at(t, p, "  "@),
        at(t, p + 2, w),
        at(t, p + 2 + w.len(), next),
        next.len() > 0,
        next[0] == ' ' || next[0] == '\n',
        mnemonic(w),
    ensures
        line_at(t, p) == done_at(t, w, p + 3 + w.len()),
{
    reveal(line_at);
    reveal(mnemonic);
    reveal_strlit("  ");
    reveal_strlit("%");
    at_chars(t, p + 2, w);
    assert(w[0] == t[p + 2 + 0]);
    not_at(t, p + 2, "%"@);
    at_chars(t, p + 2 + w.len(), next);
    assert(next[0] == t[p + 2 + w.len() + 0]);
    word_is_read(t, p + 2, w);
}

/// One line.
pub proof fn one_line(t: Seq<char>, p: int, line: Line, e: int)
    requires
        line_at(t, p) == Some((line, e)),
    ensures
        lines_at(t, p, 1) == Some((seq![line], e)),
{
    reveal_with_fuel(lines_at, 3);
    assert(seq![line] + Seq::<Line>::empty() =~= seq![line]);
}

/// Two lines.
pub proof fn two_lines(t: Seq<char>, p: int, a: Line, q: int, b: Line, e: int)
    requires
        line_at(t, p) == Some((a, q)),
        line_at(t, q) == Some((b, e)),
    ensures
        lines_at(t, p, 2) == Some((seq![a, b], e)),
{
    one_line(t, q, b, e);
    assert(seq![a] + seq![b] =~= seq![a, b]);
}

/// Three lines.
pub proof fn three_lines(t: Seq<char>, p: int, a: Line, q: int, b: Line, r: int, d: Line, e: int)
    requires
        line_at(t, p) == Some((a, q)),
        line_at(t, q) == Some((b, r)),
        line_at(t, r) == Some((d, e)),
    ensures
        lines_at(t, p, 3) == Some((seq![a, b, d], e)),
{
    two_lines(t, q, b, r, d, e);
    assert(seq![a] + seq![b, d] =~= seq![a, b, d]);
}

/// The type of a pointer to a type.
pub open spec fn star(w: Seq<char>) -> Seq<char> {
    w + "*"@
}

/// The type of what a checked operation gives.
pub open spec fn checked_type(w: Seq<char>) -> Seq<char> {
    "{ "@ + w + ", i1 }"@
}

/// The rest of a line.
pub proof fn rest_is_read(t: Seq<char>, p: int, w: Seq<char>)
    requires
        at(t, p, w),
        free_of(w, '\n'),
        at(t, p + w.len(), "\n"@),
    ensures
        until(t, p, '\n') == p + w.len(),
        t.subrange(p, p + w.len()) == w,
{
    reveal_strlit("\n");
    at_chars(t, p, w);
    at_chars(t, p + w.len(), "\n"@);
    assert("\n"@[0] == t[p + w.len() + 0]);
    assert forall|i: int| p <= i < p + w.len() implies #[trigger] t[i] != '\n' by {
        assert(w[i - p] == t[p + (i - p)]);
    }
    until_finds(t, p, p + w.len(), '\n');
}

/// A type that ends a line.
pub proof fn type_ends_line(t: Seq<char>, p: int, w: Seq<char>)
    requires
        at(t, p, w),
        spells_type(w),
        at(t, p + w.len(), "\n"@),
    ensures
        until(t, p, '\n') == p + w.len(),
        t.subrange(p, p + w.len()) == w,
{
    reveal(spells_type);
    rest_is_read(t, p, w);
}

/// A number as an operand.
pub proof fn integer_is_told(t: Seq<char>, p: int, n: nat, next: Seq<char>)
    requires
        at(t, p, decimal(n)),
        at(t, p + decimal(n).len(), next),
        next.len() > 0,
        ends_value(next[0]),
    ensures
        value_at(t, p) == Some((Said::Number(n), p + decimal(n).len())),
{
    at_chars(t, p + decimal(n).len(), next);
    assert(next[0] == t[p + decimal(n).len() + 0]);
    integer_is_read(t, p, n);
}

/// `-1` as an operand.
pub proof fn minus_one_is_told(t: Seq<char>, p: int, next: Seq<char>)
    requires
        at(t, p, "-1"@),
        at(t, p + 2, next),
        next.len() > 0,
        ends_value(next[0]),
    ensures
        value_at(t, p) == Some((Said::Minus(1), p + 2)),
{
    reveal(value_at);
    reveal_strlit("-1");
    reveal_strlit("0x");
    assert(decimal(1) =~= seq!['1']);
    begins_with(t, p, "-1"@, seq!['-'], decimal(1));
    at_chars(t, p, "-1"@);
    assert("-1"@[0] == t[p + 0]);
    not_at(t, p, "0x"@);
    number_is_told(t, p + 1, 1, next);
}

/// The type of what a checked operation gives is one.
pub proof fn checked_spells(w: Seq<char>)
    requires
        spells_type(w),
    ensures
        spells_type(checked_type(w)),
{
    reveal(spells_type);
    reveal_strlit("{ ");
    reveal_strlit(", i1 }");
    let tail = seq![',', ' ', 'i', '1', ' '];
    ordinary_goes(seq![' '], 1);
    ordinary_goes(tail, 1);
    through_joins(seq![' '], w, 1);
    through_joins(seq![' '] + w, tail, 1);
    braces_go(seq!['{'], seq![' '] + w + tail, seq!['}']);
    assert(checked_type(w) =~= seq!['{'] + (seq![' '] + w + tail) + seq!['}']);
}

/// Two operands of a type, up to the end of the line.
pub proof fn pair_is_read(t: Seq<char>, p: int, ty: Seq<char>, a: Said, q: int, b: Said, e: int)
    requires
        operand_at(t, p) == Some((ty, a, q)),
        at(t, q, ", "@),
        value_at(t, q + 2) == Some((b, e)),
        at(t, e, "\n"@),
    ensures
        pair_at(t, p) == Some((ty, a, b, e + 1)),
{
    reveal(pair_at);
}

/// A binary operator.
pub proof fn bin_is_read(t: Seq<char>, o: Seq<char>, c: &EmitContext, nm: Names, n: usize, op: BinOp, ty: LType, a: Val, b: Val)
    requires
        begins(t, arith_text(c, nm, o, n, Inst::Bin(op, ty, a, b))),
    ensures
        begins(t, o),
        lines_at(t, o.len() as int, 1) == Some(
            (seq![Line::Define('v', n as nat, What::Bin(op, type_word(c, ty), said(c, nm, a), said(c, nm, b)))], arith_text(c, nm, o, n, Inst::Bin(op, ty, a, b)).len() as int),
        ),
{
    reveal(arith_text);
    let o1 = o + "  %v"@;
    let o2 = o1 + decimal(n as nat);
    let o3 = o2 + " = "@;
    let o4 = o3 + bin_text(op);
    let o5 = o4 + " "@;
    let o6 = type_text(c, o5, ty);
    let o7 = o6 + " "@;
    let o8 = value_text(c, nm, o7, a);
    let o9 = o8 + ", "@;
    let o10 = value_text(c, nm, o9, b);
    let o11 = o10 + "\n"@;
    piece(t, o10, "\n"@);
    value_spells(c, nm, o9, b);
    piece(t, o9, value_word(c, nm, b));
    piece(t, o8, ", "@);
    value_spells(c, nm, o7, a);
    piece(t, o7, value_word(c, nm, a));
    piece(t, o6, " "@);
    type_spells(c, o5, ty);
    piece(t, o5, type_word(c, ty));
    piece(t, o4, " "@);
    piece(t, o3, bin_text(op));
    piece(t, o2, " = "@);
    piece(t, o1, decimal(n as nat));
    piece(t, o, "  %v"@);
    reveal_strlit("  %v");
    reveal_strlit(" = ");
    reveal_strlit(" ");
    reveal_strlit(", ");
    reveal_strlit("\n");
    value_is_told(t, o7.len() as int, c, nm, a, ", "@);
    value_is_told(t, o9.len() as int, c, nm, b, "\n"@);
    operand_is_read(t, o5.len() as int, type_word(c, ty), said(c, nm, a), o8.len() as int);
    pair_is_read(t, o5.len() as int, type_word(c, ty), said(c, nm, a), o8.len() as int, said(c, nm, b), o10.len() as int);
    bin_is_told(op);
    definition_is_read(t, o.len() as int, "  %v"@, n as nat, bin_text(op), " "@);
    assert(line_at(t, o.len() as int) == Some((Line::Define('v', n as nat, What::Bin(op, type_word(c, ty), said(c, nm, a), said(c, nm, b))), o11.len() as int)));
    one_line(t, o.len() as int, Line::Define('v', n as nat, What::Bin(op, type_word(c, ty), said(c, nm, a), said(c, nm, b))), o11.len() as int);
}

/// The opposite of an integer: zero less the integer.
pub proof fn neg_is_read(t: Seq<char>, o: Seq<char>, c: &EmitContext, nm: Names, n: usize, ty: LType, a: Val)
    requires
        begins(t, arith_text(c, nm, o, n, Inst::Neg(ty, a))),
    ensures
        begins(t, o),
        lines_at(t, o.len() as int, 1) == Some(
            (seq![Line::Define('v', n as nat, What::Bin(BinOp::Sub, type_word(c, ty), Said::Number(0), said(c, nm, a)))], arith_text(c, nm, o, n, Inst::Neg(ty, a)).len() as int),
        ),
{
    reveal(arith_text);
    let o1 = o + "  %v"@;
    let o2 = o1 + decimal(n as nat);
    let o3 = o2 + " = "@;
    let o4 = o3 + "sub "@;
    let o5 = type_text(c, o4, ty);
    let o6 = o5 + " 0, "@;
    let o7 = value_text(c, nm, o6, a);
    let o8 = o7 + "\n"@;
    piece(t, o7, "\n"@);
    value_spells(c, nm, o6, a);
    piece(t, o6, value_word(c, nm, a));
    piece(t, o5, " 0, "@);
    type_spells(c, o4, ty);
    piece(t, o4, type_word(c, ty));
    piece(t, o3, "sub "@);
    piece(t, o2, " = "@);
    piece(t, o1, decimal(n as nat));
    piece(t, o, "  %v"@);
    reveal_strlit("  %v");
    reveal_strlit(" = ");
    reveal_strlit("sub ");
    reveal_strlit("sub");
    reveal_strlit(" ");
    begins_with(t, o3.len() as int, "sub "@, "sub"@, " "@);
    reveal_strlit(" 0, ");
    reveal_strlit("0");
    reveal_strlit(", ");
    reveal_strlit("0, ");
    begins_with(t, o5.len() as int, " 0, "@, " "@, "0, "@);
    begins_with(t, o5.len() as int + 1, "0, "@, "0"@, ", "@);
    reveal_strlit("\n");
    assert("0"@ =~= decimal(0));
    number_is_told(t, o5.len() as int + 1, 0, ", "@);
    integer_is_told(t, o5.len() as int + 1, 0, ", "@);
    value_is_told(t, o6.len() as int, c, nm, a, "\n"@);
    operand_is_read(t, o4.len() as int, type_word(c, ty), Said::Number(0), o5.len() as int + 2);
    pair_is_read(t, o4.len() as int, type_word(c, ty), Said::Number(0), o5.len() as int + 2, said(c, nm, a), o7.len() as int);
    bin_is_told(BinOp::Sub);
    definition_is_read(t, o.len() as int, "  %v"@, n as nat, "sub"@, " "@);
    assert(line_at(t, o.len() as int) == Some((Line::Define('v', n as nat, What::Bin(BinOp::Sub, type_word(c, ty), Said::Number(0), said(c, nm, a))), o8.len() as int)));
    one_line(t, o.len() as int, Line::Define('v', n as nat, What::Bin(BinOp::Sub, type_word(c, ty), Said::Number(0), said(c, nm, a))), o8.len() as int);
}

/// All bits of an integer turned around.
pub proof fn not_is_read(t: Seq<char>, o: Seq<char>, c: &EmitContext, nm: Names, n: usize, ty: LType, a: Val)
    requires
        begins(t, arith_text(c, nm, o, n, Inst::Not(ty, a))),
    ensures
        begins(t, o),
        lines_at(t, o.len() as int, 1) == Some(
            (seq![Line::Define('v', n as nat, What::Bin(BinOp::Xor, type_word(c, ty), said(c, nm, a), Said::Minus(1)))], arith_text(c, nm, o, n, Inst::Not(ty, a)).len() as int),
        ),
{
    reveal(arith_text);
    let o1 = o + "  %v"@;
    let o2 = o1 + decimal(n as nat);
    let o3 = o2 + " = "@;
    let o4 = o3 + "xor "@;
    let o5 = type_text(c, o4, ty);
    let o6 = o5 + " "@;
    let o7 = value_text(c, nm, o6, a);
    let o8 = o7 + ", -1\n"@;
    piece(t, o7, ", -1\n"@);
    value_spells(c, nm, o6, a);
    piece(t, o6, value_word(c, nm, a));
    piece(t, o5, " "@);
    type_spells(c, o4, ty);
    piece(t, o4, type_word(c, ty));
    piece(t, o3, "xor "@);
    piece(t, o2, " = "@);
    piece(t, o1, decimal(n as nat));
    piece(t, o, "  %v"@);
    reveal_strlit("  %v");
    reveal_strlit(" = ");
    reveal_strlit("xor ");
    reveal_strlit("xor");
    reveal_strlit(" ");
    begins_with(t, o3.len() as int, "xor "@, "xor"@, " "@);
    reveal_strlit(", -1\n");
    reveal_strlit(", ");
    reveal_strlit("-1");
    reveal_strlit("\n");
    reveal_strlit("-1\n");
    begins_with(t, o7.len() as int, ", -1\n"@, ", "@, "-1\n"@);
    begins_with(t, o7.len() as int + 2, "-1\n"@, "-1"@, "\n"@);
    value_is_told(t, o6.len() as int, c, nm, a, ", "@);
    minus_one_is_told(t, o7.len() as int + 2, "\n"@);
    operand_is_read(t, o4.len() as int, type_word(c, ty), said(c, nm, a), o7.len() as int);
    pair_is_read(t, o4.len() as int, type_word(c, ty), said(c, nm, a), o7.len() as int, Said::Minus(1), o7.len() as int + 4);
    bin_is_told(BinOp::Xor);
    definition_is_read(t, o.len() as int, "  %v"@, n as nat, "xor"@, " "@);
    assert(line_at(t, o.len() as int) == Some((Line::Define('v', n as nat, What::Bin(BinOp::Xor, type_word(c, ty), said(c, nm, a), Said::Minus(1))), o8.len() as int)));
    one_line(t, o.len() as int, Line::Define('v', n as nat, What::Bin(BinOp::Xor, type_word(c, ty), said(c, nm, a), Said::Minus(1))), o8.len() as int);
}

/// The opposite of a float.
pub proof fn fneg_is_read(t: Seq<char>, o: Seq<char>, c: &EmitContext, nm: Names, n: usize, ty: LType, a: Val)
    requires
        begins(t, arith_text(c, nm, o, n, Inst::FNeg(ty, a))),
    ensures
        begins(t, o),
        lines_at(t, o.len() as int, 1) == Some(
            (seq![Line::Define('v', n as nat, What::FNeg(type_word(c, ty), said(c, nm, a)))], arith_text(c, nm, o, n, Inst::FNeg(ty, a)).len() as int),
        ),
{
    reveal(arith_text);
    let o1 = o + "  %v"@;
    let o2 = o1 + decimal(n as nat);
    let o3 = o2 + " = "@;
    let o4 = o3 + "fneg "@;
    let o5 = type_text(c, o4, ty);
    let o6 = o5 + " "@;
    let o7 = value_text(c, nm, o6, a);
    let o8 = o7 + "\n"@;
    piece(t, o7, "\n"@);
    value_spells(c, nm, o6, a);
    piece(t, o6, value_word(c, nm, a));
    piece(t, o5, " "@);
    type_spells(c, o4, ty);
    piece(t, o4, type_word(c, ty));
    piece(t, o3, "fneg "@);
    piece(t, o2, " = "@);
    piece(t, o1, decimal(n as nat));
    piece(t, o, "  %v"@);
    reveal_strlit("  %v");
    reveal_strlit(" = ");
    reveal_strlit("fneg ");
    reveal_strlit("fneg");
    reveal_strlit(" ");
    begins_with(t, o3.len() as int, "fneg "@, "fneg"@, " "@);
    reveal_strlit("\n");
    value_is_told(t, o6.len() as int, c, nm, a, "\n"@);
    operand_is_read(t, o4.len() as int, type_word(c, ty), said(c, nm, a), o7.len() as int);
    told_fneg();
    definition_is_read(t, o.len() as int, "  %v"@, n as nat, "fneg"@, " "@);
    assert(line_at(t, o.len() as int) == Some((Line::Define('v', n as nat, What::FNeg(type_word(c, ty), said(c, nm, a))), o8.len() as int)));
    one_line(t, o.len() as int, Line::Define('v', n as nat, What::FNeg(type_word(c, ty), said(c, nm, a))), o8.len() as int);
}

/// A comparison.
pub proof fn int_test_is_read(t: Seq<char>, o: Seq<char>, c: &EmitContext, nm: Names, n: usize, pred: Pred, ty: LType, a: Val, b: Val)
    requires
        begins(t, arith_text(c, nm, o, n, Inst::ITest(pred, ty, a, b))),
    ensures
        begins(t, o),
        lines_at(t, o.len() as int, 1) == Some(
            (seq![Line::Define('v', n as nat, What::IntTest(pred, type_word(c, ty), said(c, nm, a), said(c, nm, b)))], arith_text(c, nm, o, n, Inst::ITest(pred, ty, a, b)).len() as int),
        ),
{
    reveal(arith_text);
    let o1 = o + "  %v"@;
    let o2 = o1 + decimal(n as nat);
    let o3 = o2 + " = "@;
    let o4 = o3 + "icmp "@;
    let o5 = o4 + pred_text(pred);
    let o6 = o5 + " "@;
    let o7 = type_text(c, o6, ty);
    let o8 = o7 + " "@;
    let o9 = value_text(c, nm, o8, a);
    let o10 = o9 + ", "@;
    let o11 = value_text(c, nm, o10, b);
    let o12 = o11 + "\n"@;
    piece(t, o11, "\n"@);
    value_spells(c, nm, o10, b);
    piece(t, o10, value_word(c, nm, b));
    piece(t, o9, ", "@);
    value_spells(c, nm, o8, a);
    piece(t, o8, value_word(c, nm, a));
    piece(t, o7, " "@);
    type_spells(c, o6, ty);
    piece(t, o6, type_word(c, ty));
    piece(t, o5, " "@);
    piece(t, o4, pred_text(pred));
    piece(t, o3, "icmp "@);
    piece(t, o2, " = "@);
    piece(t, o1, decimal(n as nat));
    piece(t, o, "  %v"@);
    reveal_strlit("  %v");
    reveal_strlit(" = ");
    reveal_strlit("icmp ");
    reveal_strlit("icmp");
    reveal_strlit(" ");
    begins_with(t, o3.len() as int, "icmp "@, "icmp"@, " "@);
    reveal_strlit(", ");
    reveal_strlit("\n");
    value_is_told(t, o8.len() as int, c, nm, a, ", "@);
    value_is_told(t, o10.len() as int, c, nm, b, "\n"@);
    operand_is_read(t, o6.len() as int, type_word(c, ty), said(c, nm, a), o9.len() as int);
    pred_is_told(pred);
    reveal(mnemonic);
    at_chars(t, o5.len() as int, " "@);
    assert(" "@[0] == t[o5.len() as int + 0]);
    word_is_read(t, o4.len() as int, pred_text(pred));
    pair_is_read(t, o6.len() as int, type_word(c, ty), said(c, nm, a), o9.len() as int, said(c, nm, b), o11.len() as int);
    told_int_test();
    definition_is_read(t, o.len() as int, "  %v"@, n as nat, "icmp"@, " "@);
    assert(line_at(t, o.len() as int) == Some((Line::Define('v', n as nat, What::IntTest(pred, type_word(c, ty), said(c, nm, a), said(c, nm, b))), o12.len() as int)));
    one_line(t, o.len() as int, Line::Define('v', n as nat, What::IntTest(pred, type_word(c, ty), said(c, nm, a), said(c, nm, b))), o12.len() as int);
}

/// A comparison.
pub proof fn float_test_is_read(t: Seq<char>, o: Seq<char>, c: &EmitContext, nm: Names, n: usize, pred: Pred, ty: LType, a: Val, b: Val)
    requires
        begins(t, arith_text(c, nm, o, n, Inst::FTest(pred, ty, a, b))),
    ensures
        begins(t, o),
        lines_at(t, o.len() as int, 1) == Some(
            (seq![Line::Define('v', n as nat, What::FloatTest(pred, type_word(c, ty), said(c, nm, a), said(c, nm, b)))], arith_text(c, nm, o, n, Inst::FTest(pred, ty, a, b)).len() as int),
        ),
{
    reveal(arith_text);
    let o1 = o + "  %v"@;
    let o2 = o1 + decimal(n as nat);
    let o3 = o2 + " = "@;
    let o4 = o3 + "fcmp "@;
    let o5 = o4 + pred_text(pred);
    let o6 = o5 + " "@;
    let o7 = type_text(c, o6, ty);
    let o8 = o7 + " "@;
    let o9 = value_text(c, nm, o8, a);
    let o10 = o9 + ", "@;
    let o11 = value_text(c, nm, o10, b);
    let o12 = o11 + "\n"@;
    piece(t, o11, "\n"@);
    value_spells(c, nm, o10, b);
    piece(t, o10, value_word(c, nm, b));
    piece(t, o9, ", "@);
    value_spells(c, nm, o8, a);
    piece(t, o8, value_word(c, nm, a));
    piece(t, o7, " "@);
    type_spells(c, o6, ty);
    piece(t, o6, type_word(c, ty));
    piece(t, o5, " "@);
    piece(t, o4, pred_text(pred));
    piece(t, o3, "fcmp "@);
    piece(t, o2, " = "@);
    piece(t, o1, decimal(n as nat));
    piece(t, o, "  %v"@);
    reveal_strlit("  %v");
    reveal_strlit(" = ");
    reveal_strlit("fcmp ");
    reveal_strlit("fcmp");
    reveal_strlit(" ");
    begins_with(t, o3.len() as int, "fcmp "@, "fcmp"@, " "@);
    reveal_strlit(", ");
    reveal_strlit("\n");
    value_is_told(t, o8.len() as int, c, nm, a, ", "@);
    value_is_told(t, o10.len() as int, c, nm, b, "\n"@);
    operand_is_read(t, o6.len() as int, type_word(c, ty), said(c, nm, a), o9.len() as int);
    pred_is_told(pred);
    reveal(mnemonic);
    at_chars(t, o5.len() as int, " "@);
    assert(" "@[0] == t[o5.len() as int + 0]);
    word_is_read(t, o4.len() as int, pred_text(pred));
    pair_is_read(t, o6.len() as int, type_word(c, ty), said(c, nm, a), o9.len() as int, said(c, nm, b), o11.len() as int);
    told_float_test();
    definition_is_read(t, o.len() as int, "  %v"@, n as nat, "fcmp"@, " "@);
    assert(line_at(t, o.len() as int) == Some((Line::Define('v', n as nat, What::FloatTest(pred, type_word(c, ty), said(c, nm, a), said(c, nm, b))), o12.len() as int)));
    one_line(t, o.len() as int, Line::Define('v', n as nat, What::FloatTest(pred, type_word(c, ty), said(c, nm, a), said(c, nm, b))), o12.len() as int);
}

/// A selection.
pub proof fn select_is_read(t: Seq<char>, o: Seq<char>, c: &EmitContext, nm: Names, n: usize, ty: LType, p: Val, a: Val, b: Val)
    requires
        begins(t, arith_text(c, nm, o, n, Inst::Select(ty, p, a, b))),
    ensures
        begins(t, o),
        lines_at(t, o.len() as int, 1) == Some(
            (seq![Line::Define('v', n as nat, What::Select((type_word(c, LType::I1), said(c, nm, p)), (type_word(c, ty), said(c, nm, a)), (type_word(c, ty), said(c, nm, b))))], arith_text(c, nm, o, n, Inst::Select(ty, p, a, b)).len() as int),
        ),
{
    reveal(arith_text);
    let o1 = o + "  %v"@;
    let o2 = o1 + decimal(n as nat);
    let o3 = o2 + " = "@;
    let o4 = o3 + "select "@;
    let o5 = type_text(c, o4, LType::I1);
    let o6 = o5 + " "@;
    let o7 = value_text(c, nm, o6, p);
    let o8 = o7 + ", "@;
    let o9 = type_text(c, o8, ty);
    let o10 = o9 + " "@;
    let o11 = value_text(c, nm, o10, a);
    let o12 = o11 + ", "@;
    let o13 = type_text(c, o12, ty);
    let o14 = o13 + " "@;
    let o15 = value_text(c, nm, o14, b);
    let o16 = o15 + "\n"@;
    piece(t, o15, "\n"@);
    value_spells(c, nm, o14, b);
    piece(t, o14, value_word(c, nm, b));
    piece(t, o13, " "@);
    type_spells(c, o12, ty);
    piece(t, o12, type_word(c, ty));
    piece(t, o11, ", "@);
    value_spells(c, nm, o10, a);
    piece(t, o10, value_word(c, nm, a));
    piece(t, o9, " "@);
    type_spells(c, o8, ty);
    piece(t, o8, type_word(c, ty));
    piece(t, o7, ", "@);
    value_spells(c, nm, o6, p);
    piece(t, o6, value_word(c, nm, p));
    piece(t, o5, " "@);
    type_spells(c, o4, LType::I1);
    piece(t, o4, type_word(c, LType::I1));
    piece(t, o3, "select "@);
    piece(t, o2, " = "@);
    piece(t, o1, decimal(n as nat));
    piece(t, o, "  %v"@);
    reveal_strlit("  %v");
    reveal_strlit(" = ");
    reveal_strlit("select ");
    reveal_strlit("select");
    reveal_strlit(" ");
    begins_with(t, o3.len() as int, "select "@, "select"@, " "@);
    reveal_strlit(", ");
    reveal_strlit("\n");
    value_is_told(t, o6.len() as int, c, nm, p, ", "@);
    value_is_told(t, o10.len() as int, c, nm, a, ", "@);
    value_is_told(t, o14.len() as int, c, nm, b, "\n"@);
    operand_is_read(t, o4.len() as int, type_word(c, LType::I1), said(c, nm, p), o7.len() as int);
    operand_is_read(t, o8.len() as int, type_word(c, ty), said(c, nm, a), o11.len() as int);
    operand_is_read(t, o12.len() as int, type_word(c, ty), said(c, nm, b), o15.len() as int);
    told_select();
    definition_is_read(t, o.len() as int, "  %v"@, n as nat, "select"@, " "@);
    assert(line_at(t, o.len() as int) == Some((Line::Define('v', n as nat, What::Select((type_word(c, LType::I1), said(c, nm, p)), (type_word(c, ty), said(c, nm, a)), (type_word(c, ty), said(c, nm, b)))), o16.len() as int)));
    one_line(t, o.len() as int, Line::Define('v', n as nat, What::Select((type_word(c, LType::I1), said(c, nm, p)), (type_word(c, ty), said(c, nm, a)), (type_word(c, ty), said(c, nm, b)))), o16.len() as int);
}

/// A cast.
pub proof fn cast_is_read(t: Seq<char>, o: Seq<char>, c: &EmitContext, nm: Names, n: usize, op: CastOp, from: LType, a: Val, to: LType)
    requires
        begins(t, arith_text(c, nm, o, n, Inst::Cast(op, from, a, to))),
    ensures
        begins(t, o),
        lines_at(t, o.len() as int, 1) == Some(
            (seq![Line::Define('v', n as nat, What::Cast(op, type_word(c, from), said(c, nm, a), type_word(c, to)))], arith_text(c, nm, o, n, Inst::Cast(op, from, a, to)).len() as int),
        ),
{
    reveal(arith_text);
    let o1 = o + "  %v"@;
    let o2 = o1 + decimal(n as nat);
    let o3 = o2 + " = "@;
    let o4 = o3 + cast_text(op);
    let o5 = o4 + " "@;
    let o6 = type_text(c, o5, from);
    let o7 = o6 + " "@;
    let o8 = value_text(c, nm, o7, a);
    let o9 = o8 + " to "@;
    let o10 = type_text(c, o9, to);
    let o11 = o10 + "\n"@;
    piece(t, o10, "\n"@);
    type_spells(c, o9, to);
    piece(t, o9, type_word(c, to));
    piece(t, o8, " to "@);
    value_spells(c, nm, o7, a);
    piece(t, o7, value_word(c, nm, a));
    piece(t, o6, " "@);
    type_spells(c, o5, from);
    piece(t, o5, type_word(c, from));
    piece(t, o4, " "@);
    piece(t, o3, cast_text(op));
    piece(t, o2, " = "@);
    piece(t, o1, decimal(n as nat));
    piece(t, o, "  %v"@);
    reveal_strlit("  %v");
    reveal_strlit(" = ");
    reveal_strlit(" ");
    reveal_strlit(" to ");
    reveal_strlit("\n");
    value_is_told(t, o7.len() as int, c, nm, a, " to "@);
    operand_is_read(t, o5.len() as int, type_word(c, from), said(c, nm, a), o8.len() as int);
    type_ends_line(t, o9.len() as int, type_word(c, to));
    cast_is_told(op);
    definition_is_read(t, o.len() as int, "  %v"@, n as nat, cast_text(op), " "@);
    assert(line_at(t, o.len() as int) == Some((Line::Define('v', n as nat, What::Cast(op, type_word(c, from), said(c, nm, a), type_word(c, to))), o11.len() as int)));
    one_line(t, o.len() as int, Line::Define('v', n as nat, What::Cast(op, type_word(c, from), said(c, nm, a), type_word(c, to))), o11.len() as int);
}

/// A part of what a checked operation gives.
pub proof fn overflowed_is_read(t: Seq<char>, o: Seq<char>, c: &EmitContext, nm: Names, n: usize, ty: LType, a: Val)
    requires
        begins(t, arith_text(c, nm, o, n, Inst::Overflowed(ty, a))),
    ensures
        begins(t, o),
        lines_at(t, o.len() as int, 1) == Some(
            (seq![Line::Define('v', n as nat, What::Extract(checked_type(type_word(c, ty)), said(c, nm, a), 1))], arith_text(c, nm, o, n, Inst::Overflowed(ty, a)).len() as int),
        ),
{
    reveal(arith_text);
    let o1 = o + "  %v"@;
    let o2 = o1 + decimal(n as nat);
    let o3 = o2 + " = "@;
    let o4 = o3 + "extractvalue { "@;
    let o5 = type_text(c, o4, ty);
    let o6 = o5 + ", i1 } "@;
    let o7 = value_text(c, nm, o6, a);
    let o8 = o7 + ", 1\n"@;
    piece(t, o7, ", 1\n"@);
    value_spells(c, nm, o6, a);
    piece(t, o6, value_word(c, nm, a));
    piece(t, o5, ", i1 } "@);
    type_spells(c, o4, ty);
    piece(t, o4, type_word(c, ty));
    piece(t, o3, "extractvalue { "@);
    piece(t, o2, " = "@);
    piece(t, o1, decimal(n as nat));
    piece(t, o, "  %v"@);
    reveal_strlit("  %v");
    reveal_strlit(" = ");
    reveal_strlit("extractvalue { ");
    reveal_strlit("extractvalue");
    reveal_strlit(" ");
    reveal_strlit("{ ");
    reveal_strlit(" { ");
    begins_with(t, o3.len() as int, "extractvalue { "@, "extractvalue"@, " { "@);
    begins_with(t, o3.len() as int + 12, " { "@, " "@, "{ "@);
    reveal_strlit(", i1 } ");
    reveal_strlit(", i1 }");
    begins_with(t, o5.len() as int, ", i1 } "@, ", i1 }"@, " "@);
    reveal_strlit(", 1\n");
    reveal_strlit(", ");
    reveal_strlit("1");
    reveal_strlit("\n");
    reveal_strlit("1\n");
    begins_with(t, o7.len() as int, ", 1\n"@, ", "@, "1\n"@);
    begins_with(t, o7.len() as int + 2, "1\n"@, "1"@, "\n"@);
    at_join(t, o3.len() as int + 13, "{ "@, type_word(c, ty));
    at_join(t, o3.len() as int + 13, "{ "@ + type_word(c, ty), ", i1 }"@);
    checked_spells(type_word(c, ty));
    value_is_told(t, o6.len() as int, c, nm, a, ", "@);
    assert("1"@ =~= decimal(1));
    number_is_told(t, o7.len() as int + 2, 1, "\n"@);
    integer_is_told(t, o7.len() as int + 2, 1, "\n"@);
    operand_is_read(t, o3.len() as int + 13, checked_type(type_word(c, ty)), said(c, nm, a), o7.len() as int);
    told_extractvalue();
    definition_is_read(t, o.len() as int, "  %v"@, n as nat, "extractvalue"@, " "@);
    assert(line_at(t, o.len() as int) == Some((Line::Define('v', n as nat, What::Extract(checked_type(type_word(c, ty)), said(c, nm, a), 1)), o8.len() as int)));
    one_line(t, o.len() as int, Line::Define('v', n as nat, What::Extract(checked_type(type_word(c, ty)), said(c, nm, a), 1)), o8.len() as int);
}

/// A part of what a checked operation gives.
pub proof fn unchecked_is_read(t: Seq<char>, o: Seq<char>, c: &EmitContext, nm: Names, n: usize, ty: LType, a: Val)
    requires
        begins(t, arith_text(c, nm, o, n, Inst::Unchecked(ty, a))),
    ensures
        begins(t, o),
        lines_at(t, o.len() as int, 1) == Some(
            (seq![Line::Define('v', n as nat, What::Extract(checked_type(type_word(c, ty)), said(c, nm, a), 0))], arith_text(c, nm, o, n, Inst::Unchecked(ty, a)).len() as int),
        ),
{
    reveal(arith_text);
    let o1 = o + "  %v"@;
    let o2 = o1 + decimal(n as nat);
    let o3 = o2 + " = "@;
    let o4 = o3 + "extractvalue { "@;
    let o5 = type_text(c, o4, ty);
    let o6 = o5 + ", i1 } "@;
    let o7 = value_text(c, nm, o6, a);
    let o8 = o7 + ", 0\n"@;
    piece(t, o7, ", 0\n"@);
    value_spells(c, nm, o6, a);
    piece(t, o6, value_word(c, nm, a));
    piece(t, o5, ", i1 } "@);
    type_spells(c, o4, ty);
    piece(t, o4, type_word(c, ty));
    piece(t, o3, "extractvalue { "@);
    piece(t, o2, " = "@);
    piece(t, o1, decimal(n as nat));
    piece(t, o, "  %v"@);
    reveal_strlit("  %v");
    reveal_strlit(" = ");
    reveal_strlit("extractvalue { ");
    reveal_strlit("extractvalue");
    reveal_strlit(" ");
    reveal_strlit("{ ");
    reveal_strlit(" { ");
    begins_with(t, o3.len() as int, "extractvalue { "@, "extractvalue"@, " { "@);
    begins_with(t, o3.len() as int + 12, " { "@, " "@, "{ "@);
    reveal_strlit(", i1 } ");
    reveal_strlit(", i1 }");
    begins_with(t, o5.len() as int, ", i1 } "@, ", i1 }"@, " "@);
    reveal_strlit(", 0\n");
    reveal_strlit(", ");
    reveal_strlit("0");
    reveal_strlit("\n");
    reveal_strlit("0\n");
    begins_with(t, o7.len() as int, ", 0\n"@, ", "@, "0\n"@);
    begins_with(t, o7.len() as int + 2, "0\n"@, "0"@, "\n"@);
    at_join(t, o3.len() as int + 13, "{ "@, type_word(c, ty));
    at_join(t, o3.len() as int + 13, "{ "@ + type_word(c, ty), ", i1 }"@);
    checked_spells(type_word(c, ty));
    value_is_told(t, o6.len() as int, c, nm, a, ", "@);
    assert("0"@ =~= decimal(0));
    number_is_told(t, o7.len() as int + 2, 0, "\n"@);
    integer_is_told(t, o7.len() as int + 2, 0, "\n"@);
    operand_is_read(t, o3.len() as int + 13, checked_type(type_word(c, ty)), said(c, nm, a), o7.len() as int);
    told_extractvalue();
    definition_is_read(t, o.len() as int, "  %v"@, n as nat, "extractvalue"@, " "@);
    assert(line_at(t, o.len() as int) == Some((Line::Define('v', n as nat, What::Extract(checked_type(type_word(c, ty)), said(c, nm, a), 0)), o8.len() as int)));
    one_line(t, o.len() as int, Line::Define('v', n as nat, What::Extract(checked_type(type_word(c, ty)), said(c, nm, a), 0)), o8.len() as int);
}

/// A part of an aggregate.
pub proof fn extract_is_read(t: Seq<char>, o: Seq<char>, c: &EmitContext, nm: Names, n: usize, ty: LType, x: Val, i: usize)
    requires
        begins(t, memory_text(c, nm, o, n, Inst::Extract(ty, x, i))),
    ensures
        begins(t, o),
        lines_at(t, o.len() as int, 1) == Some(
            (seq![Line::Define('v', n as nat, What::Extract(type_word(c, ty), said(c, nm, x), i as nat))], memory_text(c, nm, o, n, Inst::Extract(ty, x, i)).len() as int),
        ),
{
    reveal(memory_text);
    let o1 = o + "  %v"@;
    let o2 = o1 + decimal(n as nat);
    let o3 = o2 + " = "@;
    let o4 = o3 + "extractvalue "@;
    let o5 = type_text(c, o4, ty);
    let o6 = o5 + " "@;
    let o7 = value_text(c, nm, o6, x);
    let o8 = o7 + ", "@;
    let o9 = o8 + decimal(i as nat);
    let o10 = o9 + "\n"@;
    piece(t, o9, "\n"@);
    piece(t, o8, decimal(i as nat));
    piece(t, o7, ", "@);
    value_spells(c, nm, o6, x);
    piece(t, o6, value_word(c, nm, x));
    piece(t, o5, " "@);
    type_spells(c, o4, ty);
    piece(t, o4, type_word(c, ty));
    piece(t, o3, "extractvalue "@);
    piece(t, o2, " = "@);
    piece(t, o1, decimal(n as nat));
    piece(t, o, "  %v"@);
    reveal_strlit("  %v");
    reveal_strlit(" = ");
    reveal_strlit("extractvalue ");
    reveal_strlit("extractvalue");
    reveal_strlit(" ");
    begins_with(t, o3.len() as int, "extractvalue "@, "extractvalue"@, " "@);
    reveal_strlit(", ");
    reveal_strlit("\n");
    value_is_told(t, o6.len() as int, c, nm, x, ", "@);
    number_is_told(t, o8.len() as int, i as nat, "\n"@);
    operand_is_read(t, o4.len() as int, type_word(c, ty), said(c, nm, x), o7.len() as int);
    told_extractvalue();
    definition_is_read(t, o.len() as int, "  %v"@, n as nat, "extractvalue"@, " "@);
    assert(line_at(t, o.len() as int) == Some((Line::Define('v', n as nat, What::Extract(type_word(c, ty), said(c, nm, x), i as nat)), o10.len() as int)));
    one_line(t, o.len() as int, Line::Define('v', n as nat, What::Extract(type_word(c, ty), said(c, nm, x), i as nat)), o10.len() as int);
}

/// An aggregate with another part.
pub proof fn insert_is_read(t: Seq<char>, o: Seq<char>, c: &EmitContext, nm: Names, n: usize, ty: LType, x: Val, fty: LType, y: Val, i: usize)
    requires
        begins(t, memory_text(c, nm, o, n, Inst::Insert(ty, x, fty, y, i))),
    ensures
        begins(t, o),
        lines_at(t, o.len() as int, 1) == Some(
            (seq![Line::Define('v', n as nat, What::Insert((type_word(c, ty), said(c, nm, x)), (type_word(c, fty), said(c, nm, y)), i as nat))], memory_text(c, nm, o, n, Inst::Insert(ty, x, fty, y, i)).len() as int),
        ),
{
    reveal(memory_text);
    let o1 = o + "  %v"@;
    let o2 = o1 + decimal(n as nat);
    let o3 = o2 + " = "@;
    let o4 = o3 + "insertvalue "@;
    let o5 = type_text(c, o4, ty);
    let o6 = o5 + " "@;
    let o7 = value_text(c, nm, o6, x);
    let o8 = o7 + ", "@;
    let o9 = type_text(c, o8, fty);
    let o10 = o9 + " "@;
    let o11 = value_text(c, nm, o10, y);
    let o12 = o11 + ", "@;
    let o13 = o12 + decimal(i as nat);
    let o14 = o13 + "\n"@;
    piece(t, o13, "\n"@);
    piece(t, o12, decimal(i as nat));
    piece(t, o11, ", "@);
    value_spells(c, nm, o10, y);
    piece(t, o10, value_word(c, nm, y));
    piece(t, o9, " "@);
    type_spells(c, o8, fty);
    piece(t, o8, type_word(c, fty));
    piece(t, o7, ", "@);
    value_spells(c, nm, o6, x);
    piece(t, o6, value_word(c, nm, x));
    piece(t, o5, " "@);
    type_spells(c, o4, ty);
    piece(t, o4, type_word(c, ty));
    piece(t, o3, "insertvalue "@);
    piece(t, o2, " = "@);
    piece(t, o1, decimal(n as nat));
    piece(t, o, "  %v"@);
    reveal_strlit("  %v");
    reveal_strlit(" = ");
    reveal_strlit("insertvalue ");
    reveal_strlit("insertvalue");
    reveal_strlit(" ");
    begins_with(t, o3.len() as int, "insertvalue "@, "insertvalue"@, " "@);
    reveal_strlit(", ");
    reveal_strlit("\n");
    value_is_told(t, o6.len() as int, c, nm, x, ", "@);
    value_is_told(t, o10.len() as int, c, nm, y, ", "@);
    number_is_told(t, o12.len() as int, i as nat, "\n"@);
    operand_is_read(t, o4.len() as int, type_word(c, ty), said(c, nm, x), o7.len() as int);
    operand_is_read(t, o8.len() as int, type_word(c, fty), said(c, nm, y), o11.len() as int);
    told_insertvalue();
    definition_is_read(t, o.len() as int, "  %v"@, n as nat, "insertvalue"@, " "@);
    assert(line_at(t, o.len() as int) == Some((Line::Define('v', n as nat, What::Insert((type_word(c, ty), said(c, nm, x)), (type_word(c, fty), said(c, nm, y)), i as nat)), o14.len() as int)));
    one_line(t, o.len() as int, Line::Define('v', n as nat, What::Insert((type_word(c, ty), said(c, nm, x)), (type_word(c, fty), said(c, nm, y)), i as nat)), o14.len() as int);
}

/// One more operand behind a comma.
pub proof fn operand_is_listed(
    t: Seq<char>,
    p: int,
    first: bool,
    close: Seq<char>,
    ty: Seq<char>,
    v: Said,
    e: int,
    rest: Seq<(Seq<char>, Said)>,
    end: int,
)
    requires
        !at(t, p, close),
        first || at(t, p, ", "@),
        operand_at(
            t,
            if first {
                p
            } else {
                p + 2
            },
        ) == Some((ty, v, e)),
        0 <= p < e <= t.len(),
        operands_at(t, e, false, close) == Some((rest, end)),
    ensures
        operands_at(t, p, first, close) == Some((seq![(ty, v)] + rest, end)),
{
    reveal(operands_at);
}

/// The end of a list.
pub proof fn list_ends(t: Seq<char>, p: int, first: bool, close: Seq<char>)
    requires
        at(t, p, close),
    ensures
        operands_at(t, p, first, close) == Some((Seq::<(Seq<char>, Said)>::empty(), p + close.len())),
{
    reveal(operands_at);
}

/// A text that has one word does not have another that begins otherwise.
pub proof fn at_another(t: Seq<char>, p: int, w: Seq<char>, v: Seq<char>)
    requires
        at(t, p, w),
        w.len() > 0,
        v.len() > 0,
        w[0] != v[0],
    ensures
        !at(t, p, v),
        0 <= p < t.len(),
{
    at_chars(t, p, w);
    assert(w[0] == t[p + 0]);
    not_at(t, p, v);
}

/// A type is no keyword.
pub proof fn type_is_no_keyword(t: Seq<char>, p: int, c: &EmitContext, ty: LType)
    requires
        at(t, p, type_word(c, ty)),
    ensures
        !at(t, p, "inbounds "@),
{
    let w = type_word(c, ty);
    reveal_strlit("inbounds ");
    type_begins(c, ty);
    at_chars(t, p, w);
    if at(t, p, "inbounds "@) {
        at_chars(t, p, "inbounds "@);
        assert("inbounds "@[0] == t[p + 0] && "inbounds "@[1] == t[p + 1]);
        assert(w[0] == t[p + 0]);
        if w.len() > 1 {
            assert(w[1] == t[p + 1]);
        }
    }
}

/// What types begin with.
pub proof fn type_begins(c: &EmitContext, ty: LType)
    ensures
        ({
            let w = type_word(c, ty);
            &&& w.len() > 0
            &&& w[0] != ')'
            &&& w[0] != 'i' || w.len() > 1 && w[1] != 'n'
        }),
{
    reveal(type_word);
    let e: Seq<char> = Seq::empty();
    reveal_strlit("void");
    reveal_strlit("i1");
    reveal_strlit("i8");
    reveal_strlit("i16");
    reveal_strlit("i32");
    reveal_strlit("i64");
    reveal_strlit("float");
    reveal_strlit("double");
    reveal_strlit("i8*");
    reveal_strlit("{ i8*, i64, i64 }");
    reveal_strlit("{ i8*, i8*, i64, i64 }");
    reveal_strlit("{ i8*, i8* }");
    reveal_strlit("{ i64, i8*, i8*, i64, i8* }");
    reveal_strlit("[");
    reveal_strlit("%\"");
    reveal_strlit("%tuple.");
    reveal_strlit("%env.");
    reveal_strlit("{ ");
    match ty {
        LType::Struct(s) => escaped_appends(e + "%\""@, c.mangled(s)),
        LType::Enum(s) => escaped_appends(e + "%\""@, c.mangled(s)),
        LType::Variant(s, t) => escaped_appends(e + "%\""@, c.mangled(s)),
        LType::Payload(s, t) => escaped_appends(e + "%\""@, c.mangled(s)),
        LType::Union(u) => escaped_appends(e + "%\""@, c.mangled(c.union_symbol(u))),
        LType::Envelope(m) => {
            flat_type_spells(c, e + "{ "@, value_type(m));
        },
        _ => {},
    }
}

/// A type that an operand follows is no `void` at the end of a line.
pub proof fn type_is_no_end(t: Seq<char>, p: int, w: Seq<char>)
    requires
        spells_type(w),
        at(t, p, w),
        at(t, p + w.len(), " "@),
    ensures
        !at(t, p, "void\n"@),
{
    reveal(spells_type);
    reveal_strlit(" ");
    reveal_strlit("void\n");
    at_chars(t, p + w.len(), " "@);
    assert(" "@[0] == t[p + w.len() + 0]);
    type_is_read(t, p, w);
    if at(t, p, "void\n"@) {
        let v = seq!['v', 'o', 'i', 'd'];
        begins_with(t, p, "void\n"@, v, seq!['\n']);
        at_chars(t, p + 4, seq!['\n']);
        assert(seq!['\n'][0] == t[p + 4 + 0]);
        ordinary_goes(v, 0);
        type_is_read(t, p, v);
    }
}

/// An address as a typed pointer.
pub open spec fn pointer_text(c: &EmitContext, nm: Names, o: Seq<char>, n: usize, p: Val, ty: LType) -> Seq<char> {
    let o1 = o + "  "@;
    let o2 = o1 + "%p"@;
    let o3 = o2 + decimal(n as nat);
    let o4 = o3 + " = bitcast "@;
    let o5 = type_text(c, o4, LType::Ptr);
    let o6 = o5 + " "@;
    let o7 = value_text(c, nm, o6, p);
    let o8 = o7 + " to "@;
    let o9 = type_text(c, o8, ty);
    let o10 = o9 + "*\n"@;
    o10
}

pub proof fn pointer_reads(t: Seq<char>, o: Seq<char>, c: &EmitContext, nm: Names, n: usize, p: Val, ty: LType)
    requires
        begins(t, pointer_text(c, nm, o, n, p, ty)),
    ensures
        begins(t, o),
        line_at(t, o.len() as int) == Some(
            (Line::Define('p', n as nat, What::Cast(CastOp::BitCast, type_word(c, LType::Ptr), said(c, nm, p), star(type_word(c, ty)))), pointer_text(c, nm, o, n, p, ty).len() as int),
        ),
{
    let o1 = o + "  "@;
    let o2 = o1 + "%p"@;
    let o3 = o2 + decimal(n as nat);
    let o4 = o3 + " = bitcast "@;
    let o5 = type_text(c, o4, LType::Ptr);
    let o6 = o5 + " "@;
    let o7 = value_text(c, nm, o6, p);
    let o8 = o7 + " to "@;
    let o9 = type_text(c, o8, ty);
    let o10 = o9 + "*\n"@;
    piece(t, o9, "*\n"@);
    type_spells(c, o8, ty);
    piece(t, o8, type_word(c, ty));
    piece(t, o7, " to "@);
    value_spells(c, nm, o6, p);
    piece(t, o6, value_word(c, nm, p));
    piece(t, o5, " "@);
    type_spells(c, o4, LType::Ptr);
    piece(t, o4, type_word(c, LType::Ptr));
    piece(t, o3, " = bitcast "@);
    piece(t, o2, decimal(n as nat));
    piece(t, o1, "%p"@);
    piece(t, o, "  "@);
    reveal_strlit("  ");
    reveal_strlit("%p");
    reveal_strlit(" = bitcast ");
    reveal_strlit(" = ");
    reveal_strlit("bitcast");
    reveal_strlit(" ");
    reveal_strlit("bitcast ");
    begins_with(t, o3.len() as int, " = bitcast "@, " = "@, "bitcast "@);
    begins_with(t, o3.len() as int + 3, "bitcast "@, "bitcast"@, " "@);
    reveal_strlit(" to ");
    reveal_strlit("*\n");
    reveal_strlit("*");
    reveal_strlit("\n");
    begins_with(t, o9.len() as int, "*\n"@, "*"@, "\n"@);
    reveal_strlit("  %p");
    at_join(t, o.len() as int, "  "@, "%p"@);
    assert("  "@ + "%p"@ =~= "  %p"@);
    at_join(t, o8.len() as int, type_word(c, ty), "*"@);
    pointer_spells(type_word(c, ty));
    value_is_told(t, o6.len() as int, c, nm, p, " to "@);
    operand_is_read(t, o4.len() as int, type_word(c, LType::Ptr), said(c, nm, p), o7.len() as int);
    type_ends_line(t, o8.len() as int, star(type_word(c, ty)));
    cast_is_told(CastOp::BitCast);
    definition_is_read(t, o.len() as int, "  %p"@, n as nat, "bitcast"@, " "@);
}

/// A typed pointer as an address.
pub open spec fn untyped_text(c: &EmitContext, nm: Names, o: Seq<char>, n: usize, ty: LType) -> Seq<char> {
    let o1 = o + "  %v"@;
    let o2 = o1 + decimal(n as nat);
    let o3 = o2 + " = "@;
    let o4 = o3 + "bitcast "@;
    let o5 = type_text(c, o4, ty);
    let o6 = o5 + "* "@;
    let o7 = o6 + "%q"@;
    let o8 = o7 + decimal(n as nat);
    let o9 = o8 + " to i8*\n"@;
    o9
}

pub proof fn untyped_reads(t: Seq<char>, o: Seq<char>, c: &EmitContext, nm: Names, n: usize, ty: LType)
    requires
        begins(t, untyped_text(c, nm, o, n, ty)),
    ensures
        begins(t, o),
        line_at(t, o.len() as int) == Some(
            (Line::Define('v', n as nat, What::Cast(CastOp::BitCast, star(type_word(c, ty)), Said::Local('q', n as nat), type_word(c, LType::Ptr))), untyped_text(c, nm, o, n, ty).len() as int),
        ),
{
    let o1 = o + "  %v"@;
    let o2 = o1 + decimal(n as nat);
    let o3 = o2 + " = "@;
    let o4 = o3 + "bitcast "@;
    let o5 = type_text(c, o4, ty);
    let o6 = o5 + "* "@;
    let o7 = o6 + "%q"@;
    let o8 = o7 + decimal(n as nat);
    let o9 = o8 + " to i8*\n"@;
    piece(t, o8, " to i8*\n"@);
    piece(t, o7, decimal(n as nat));
    piece(t, o6, "%q"@);
    piece(t, o5, "* "@);
    type_spells(c, o4, ty);
    piece(t, o4, type_word(c, ty));
    piece(t, o3, "bitcast "@);
    piece(t, o2, " = "@);
    piece(t, o1, decimal(n as nat));
    piece(t, o, "  %v"@);
    reveal_strlit("  %v");
    reveal_strlit(" = ");
    reveal_strlit("bitcast ");
    reveal_strlit("bitcast");
    reveal_strlit(" ");
    begins_with(t, o3.len() as int, "bitcast "@, "bitcast"@, " "@);
    reveal_strlit("* ");
    reveal_strlit("*");
    begins_with(t, o5.len() as int, "* "@, "*"@, " "@);
    reveal_strlit("%q");
    reveal_strlit(" to i8*\n");
    reveal_strlit(" to ");
    reveal_strlit("i8*");
    reveal_strlit("\n");
    reveal_strlit("i8*\n");
    begins_with(t, o8.len() as int, " to i8*\n"@, " to "@, "i8*\n"@);
    begins_with(t, o8.len() as int + 4, "i8*\n"@, "i8*"@, "\n"@);
    at_join(t, o4.len() as int, type_word(c, ty), "*"@);
    pointer_spells(type_word(c, ty));
    type_spells(c, Seq::empty(), LType::Ptr);
    common_types_are_spelled(c);
    local_is_told(t, o6.len() as int, "%q"@, n as nat, " to "@);
    operand_is_read(t, o4.len() as int, star(type_word(c, ty)), Said::Local('q', n as nat), o8.len() as int);
    type_ends_line(t, o8.len() as int + 4, type_word(c, LType::Ptr));
    cast_is_told(CastOp::BitCast);
    definition_is_read(t, o.len() as int, "  %v"@, n as nat, "bitcast"@, " "@);
}

/// An address so many elements further.
pub open spec fn gep_line_text(c: &EmitContext, nm: Names, o: Seq<char>, n: usize, ty: LType, i: Val) -> Seq<char> {
    let o1 = o + "  "@;
    let o2 = o1 + "%q"@;
    let o3 = o2 + decimal(n as nat);
    let o4 = o3 + " = getelementptr "@;
    let o5 = type_text(c, o4, ty);
    let o6 = o5 + ", "@;
    let o7 = type_text(c, o6, ty);
    let o8 = o7 + "* "@;
    let o9 = o8 + "%p"@;
    let o10 = o9 + decimal(n as nat);
    let o11 = o10 + ", "@;
    let o12 = type_text(c, o11, LType::I64);
    let o13 = o12 + " "@;
    let o14 = value_text(c, nm, o13, i);
    let o15 = o14 + "\n"@;
    o15
}

pub proof fn gep_line_reads(t: Seq<char>, o: Seq<char>, c: &EmitContext, nm: Names, n: usize, ty: LType, i: Val)
    requires
        begins(t, gep_line_text(c, nm, o, n, ty, i)),
    ensures
        begins(t, o),
        line_at(t, o.len() as int) == Some(
            (Line::Define('q', n as nat, What::Gep(false, type_word(c, ty), (star(type_word(c, ty)), Said::Local('p', n as nat)), seq![(type_word(c, LType::I64), said(c, nm, i))])), gep_line_text(c, nm, o, n, ty, i).len() as int),
        ),
{
    let o1 = o + "  "@;
    let o2 = o1 + "%q"@;
    let o3 = o2 + decimal(n as nat);
    let o4 = o3 + " = getelementptr "@;
    let o5 = type_text(c, o4, ty);
    let o6 = o5 + ", "@;
    let o7 = type_text(c, o6, ty);
    let o8 = o7 + "* "@;
    let o9 = o8 + "%p"@;
    let o10 = o9 + decimal(n as nat);
    let o11 = o10 + ", "@;
    let o12 = type_text(c, o11, LType::I64);
    let o13 = o12 + " "@;
    let o14 = value_text(c, nm, o13, i);
    let o15 = o14 + "\n"@;
    piece(t, o14, "\n"@);
    value_spells(c, nm, o13, i);
    piece(t, o13, value_word(c, nm, i));
    piece(t, o12, " "@);
    type_spells(c, o11, LType::I64);
    piece(t, o11, type_word(c, LType::I64));
    piece(t, o10, ", "@);
    piece(t, o9, decimal(n as nat));
    piece(t, o8, "%p"@);
    piece(t, o7, "* "@);
    type_spells(c, o6, ty);
    piece(t, o6, type_word(c, ty));
    piece(t, o5, ", "@);
    type_spells(c, o4, ty);
    piece(t, o4, type_word(c, ty));
    piece(t, o3, " = getelementptr "@);
    piece(t, o2, decimal(n as nat));
    piece(t, o1, "%q"@);
    piece(t, o, "  "@);
    reveal_strlit("  ");
    reveal_strlit("%q");
    reveal_strlit(" = getelementptr ");
    reveal_strlit(" = ");
    reveal_strlit("getelementptr");
    reveal_strlit(" ");
    reveal_strlit("getelementptr ");
    begins_with(t, o3.len() as int, " = getelementptr "@, " = "@, "getelementptr "@);
    begins_with(t, o3.len() as int + 3, "getelementptr "@, "getelementptr"@, " "@);
    reveal_strlit(", ");
    reveal_strlit("* ");
    reveal_strlit("*");
    begins_with(t, o7.len() as int, "* "@, "*"@, " "@);
    reveal_strlit("%p");
    reveal_strlit("\n");
    reveal_strlit("  %q");
    at_join(t, o.len() as int, "  "@, "%q"@);
    assert("  "@ + "%q"@ =~= "  %q"@);
    at_join(t, o6.len() as int, type_word(c, ty), "*"@);
    pointer_spells(type_word(c, ty));
    local_is_told(t, o8.len() as int, "%p"@, n as nat, ", "@);
    value_is_told(t, o13.len() as int, c, nm, i, "\n"@);
    type_is_told(t, o4.len() as int, type_word(c, ty), ", "@);
    operand_is_read(t, o6.len() as int, star(type_word(c, ty)), Said::Local('p', n as nat), o10.len() as int);
    operand_is_read(t, o11.len() as int, type_word(c, LType::I64), said(c, nm, i), o14.len() as int);
    list_ends(t, o14.len() as int, false, "\n"@);
    at_another(t, o10.len() as int, ", "@, "\n"@);
    at_chars(t, o14.len() as int, "\n"@);
    operand_is_listed(t, o10.len() as int, false, "\n"@, type_word(c, LType::I64), said(c, nm, i), o14.len() as int, Seq::empty(), o14.len() as int + 1);
    assert(seq![(type_word(c, LType::I64), said(c, nm, i))] + Seq::<(Seq<char>, Said)>::empty() =~= seq![(type_word(c, LType::I64), said(c, nm, i))]);
    type_is_no_keyword(t, o4.len() as int, c, ty);
    told_getelementptr();
    definition_is_read(t, o.len() as int, "  %q"@, n as nat, "getelementptr"@, " "@);
}

/// An address so many elements further.
pub proof fn gep_is_read(t: Seq<char>, o: Seq<char>, c: &EmitContext, nm: Names, n: usize, ty: LType, p: Val, i: Val)
    requires
        begins(t, memory_text(c, nm, o, n, Inst::Gep(ty, p, i))),
    ensures
        begins(t, o),
        lines_at(t, o.len() as int, 3) == Some(
            (seq![Line::Define('p', n as nat, What::Cast(CastOp::BitCast, type_word(c, LType::Ptr), said(c, nm, p), star(type_word(c, ty)))), Line::Define('q', n as nat, What::Gep(false, type_word(c, ty), (star(type_word(c, ty)), Said::Local('p', n as nat)), seq![(type_word(c, LType::I64), said(c, nm, i))])), Line::Define('v', n as nat, What::Cast(CastOp::BitCast, star(type_word(c, ty)), Said::Local('q', n as nat), type_word(c, LType::Ptr)))], memory_text(c, nm, o, n, Inst::Gep(ty, p, i)).len() as int),
        ),
{
    reveal(memory_text);
    let o1 = pointer_text(c, nm, o, n, p, ty);
    let o2 = gep_line_text(c, nm, o1, n, ty, i);
    let o3 = untyped_text(c, nm, o2, n, ty);
    assert(o3 == memory_text(c, nm, o, n, Inst::Gep(ty, p, i)));
    untyped_reads(t, o2, c, nm, n, ty);
    gep_line_reads(t, o1, c, nm, n, ty, i);
    pointer_reads(t, o, c, nm, n, p, ty);
    three_lines(t, o.len() as int, Line::Define('p', n as nat, What::Cast(CastOp::BitCast, type_word(c, LType::Ptr), said(c, nm, p), star(type_word(c, ty)))), o1.len() as int, Line::Define('q', n as nat, What::Gep(false, type_word(c, ty), (star(type_word(c, ty)), Said::Local('p', n as nat)), seq![(type_word(c, LType::I64), said(c, nm, i))])), o2.len() as int, Line::Define('v', n as nat, What::Cast(CastOp::BitCast, star(type_word(c, ty)), Said::Local('q', n as nat), type_word(c, LType::Ptr))), o3.len() as int);
}

/// An address so many elements further.
pub open spec fn gep_in_line_text(c: &EmitContext, nm: Names, o: Seq<char>, n: usize, ty: LType, i: Val) -> Seq<char> {
    let o1 = o + "  "@;
    let o2 = o1 + "%q"@;
    let o3 = o2 + decimal(n as nat);
    let o4 = o3 + " = getelementptr inbounds "@;
    let o5 = type_text(c, o4, ty);
    let o6 = o5 + ", "@;
    let o7 = type_text(c, o6, ty);
    let o8 = o7 + "* "@;
    let o9 = o8 + "%p"@;
    let o10 = o9 + decimal(n as nat);
    let o11 = o10 + ", "@;
    let o12 = type_text(c, o11, LType::I64);
    let o13 = o12 + " "@;
    let o14 = value_text(c, nm, o13, i);
    let o15 = o14 + "\n"@;
    o15
}

pub proof fn gep_in_line_reads(t: Seq<char>, o: Seq<char>, c: &EmitContext, nm: Names, n: usize, ty: LType, i: Val)
    requires
        begins(t, gep_in_line_text(c, nm, o, n, ty, i)),
    ensures
        begins(t, o),
        line_at(t, o.len() as int) == Some(
            (Line::Define('q', n as nat, What::Gep(true, type_word(c, ty), (star(type_word(c, ty)), Said::Local('p', n as nat)), seq![(type_word(c, LType::I64), said(c, nm, i))])), gep_in_line_text(c, nm, o, n, ty, i).len() as int),
        ),
{
    let o1 = o + "  "@;
    let o2 = o1 + "%q"@;
    let o3 = o2 + decimal(n as nat);
    let o4 = o3 + " = getelementptr inbounds "@;
    let o5 = type_text(c, o4, ty);
    let o6 = o5 + ", "@;
    let o7 = type_text(c, o6, ty);
    let o8 = o7 + "* "@;
    let o9 = o8 + "%p"@;
    let o10 = o9 + decimal(n as nat);
    let o11 = o10 + ", "@;
    let o12 = type_text(c, o11, LType::I64);
    let o13 = o12 + " "@;
    let o14 = value_text(c, nm, o13, i);
    let o15 = o14 + "\n"@;
    piece(t, o14, "\n"@);
    value_spells(c, nm, o13, i);
    piece(t, o13, value_word(c, nm, i));
    piece(t, o12, " "@);
    type_spells(c, o11, LType::I64);
    piece(t, o11, type_word(c, LType::I64));
    piece(t, o10, ", "@);
    piece(t, o9, decimal(n as nat));
    piece(t, o8, "%p"@);
    piece(t, o7, "* "@);
    type_spells(c, o6, ty);
    piece(t, o6, type_word(c, ty));
    piece(t, o5, ", "@);
    type_spells(c, o4, ty);
    piece(t, o4, type_word(c, ty));
    piece(t, o3, " = getelementptr inbounds "@);
    piece(t, o2, decimal(n as nat));
    piece(t, o1, "%q"@);
    piece(t, o, "  "@);
    reveal_strlit("  ");
    reveal_strlit("%q");
    reveal_strlit(" = getelementptr inbounds ");
    reveal_strlit(" = ");
    reveal_strlit("getelementptr");
    reveal_strlit(" ");
    reveal_strlit("inbounds ");
    reveal_strlit("getelementptr inbounds ");
    begins_with(t, o3.len() as int, " = getelementptr inbounds "@, " = "@, "getelementptr inbounds "@);
    reveal_strlit(" inbounds ");
    begins_with(t, o3.len() as int + 3, "getelementptr inbounds "@, "getelementptr"@, " inbounds "@);
    begins_with(t, o3.len() as int + 16, " inbounds "@, " "@, "inbounds "@);
    reveal_strlit(", ");
    reveal_strlit("* ");
    reveal_strlit("*");
    begins_with(t, o7.len() as int, "* "@, "*"@, " "@);
    reveal_strlit("%p");
    reveal_strlit("\n");
    reveal_strlit("  %q");
    at_join(t, o.len() as int, "  "@, "%q"@);
    assert("  "@ + "%q"@ =~= "  %q"@);
    at_join(t, o6.len() as int, type_word(c, ty), "*"@);
    pointer_spells(type_word(c, ty));
    local_is_told(t, o8.len() as int, "%p"@, n as nat, ", "@);
    value_is_told(t, o13.len() as int, c, nm, i, "\n"@);
    type_is_told(t, o4.len() as int, type_word(c, ty), ", "@);
    operand_is_read(t, o6.len() as int, star(type_word(c, ty)), Said::Local('p', n as nat), o10.len() as int);
    operand_is_read(t, o11.len() as int, type_word(c, LType::I64), said(c, nm, i), o14.len() as int);
    list_ends(t, o14.len() as int, false, "\n"@);
    at_another(t, o10.len() as int, ", "@, "\n"@);
    at_chars(t, o14.len() as int, "\n"@);
    operand_is_listed(t, o10.len() as int, false, "\n"@, type_word(c, LType::I64), said(c, nm, i), o14.len() as int, Seq::empty(), o14.len() as int + 1);
    assert(seq![(type_word(c, LType::I64), said(c, nm, i))] + Seq::<(Seq<char>, Said)>::empty() =~= seq![(type_word(c, LType::I64), said(c, nm, i))]);
    told_getelementptr();
    definition_is_read(t, o.len() as int, "  %q"@, n as nat, "getelementptr"@, " "@);
}

/// An address so many elements further.
pub proof fn gep_in_is_read(t: Seq<char>, o: Seq<char>, c: &EmitContext, nm: Names, n: usize, ty: LType, p: Val, i: Val)
    requires
        begins(t, memory_text(c, nm, o, n, Inst::GepIn(ty, p, i))),
    ensures
        begins(t, o),
        lines_at(t, o.len() as int, 3) == Some(
            (seq![Line::Define('p', n as nat, What::Cast(CastOp::BitCast, type_word(c, LType::Ptr), said(c, nm, p), star(type_word(c, ty)))), Line::Define('q', n as nat, What::Gep(true, type_word(c, ty), (star(type_word(c, ty)), Said::Local('p', n as nat)), seq![(type_word(c, LType::I64), said(c, nm, i))])), Line::Define('v', n as nat, What::Cast(CastOp::BitCast, star(type_word(c, ty)), Said::Local('q', n as nat), type_word(c, LType::Ptr)))], memory_text(c, nm, o, n, Inst::GepIn(ty, p, i)).len() as int),
        ),
{
    reveal(memory_text);
    let o1 = pointer_text(c, nm, o, n, p, ty);
    let o2 = gep_in_line_text(c, nm, o1, n, ty, i);
    let o3 = untyped_text(c, nm, o2, n, ty);
    assert(o3 == memory_text(c, nm, o, n, Inst::GepIn(ty, p, i)));
    untyped_reads(t, o2, c, nm, n, ty);
    gep_in_line_reads(t, o1, c, nm, n, ty, i);
    pointer_reads(t, o, c, nm, n, p, ty);
    three_lines(t, o.len() as int, Line::Define('p', n as nat, What::Cast(CastOp::BitCast, type_word(c, LType::Ptr), said(c, nm, p), star(type_word(c, ty)))), o1.len() as int, Line::Define('q', n as nat, What::Gep(true, type_word(c, ty), (star(type_word(c, ty)), Said::Local('p', n as nat)), seq![(type_word(c, LType::I64), said(c, nm, i))])), o2.len() as int, Line::Define('v', n as nat, What::Cast(CastOp::BitCast, star(type_word(c, ty)), Said::Local('q', n as nat), type_word(c, LType::Ptr))), o3.len() as int);
}

/// The address of a field.
pub open spec fn field_line_text(c: &EmitContext, nm: Names, o: Seq<char>, n: usize, ty: LType, i: usize) -> Seq<char> {
    let o1 = o + "  "@;
    let o2 = o1 + "%q"@;
    let o3 = o2 + decimal(n as nat);
    let o4 = o3 + " = getelementptr inbounds "@;
    let o5 = type_text(c, o4, ty);
    let o6 = o5 + ", "@;
    let o7 = type_text(c, o6, ty);
    let o8 = o7 + "* "@;
    let o9 = o8 + "%p"@;
    let o10 = o9 + decimal(n as nat);
    let o11 = o10 + ", i32 0, i32 "@;
    let o12 = o11 + decimal(i as nat);
    let o13 = o12 + "\n"@;
    o13
}

pub proof fn field_line_reads(t: Seq<char>, o: Seq<char>, c: &EmitContext, nm: Names, n: usize, ty: LType, i: usize)
    requires
        begins(t, field_line_text(c, nm, o, n, ty, i)),
    ensures
        begins(t, o),
        line_at(t, o.len() as int) == Some(
            (Line::Define('q', n as nat, What::Gep(true, type_word(c, ty), (star(type_word(c, ty)), Said::Local('p', n as nat)), seq![(type_word(c, LType::I32), Said::Number(0)), (type_word(c, LType::I32), Said::Number(i as nat))])), field_line_text(c, nm, o, n, ty, i).len() as int),
        ),
{
    let o1 = o + "  "@;
    let o2 = o1 + "%q"@;
    let o3 = o2 + decimal(n as nat);
    let o4 = o3 + " = getelementptr inbounds "@;
    let o5 = type_text(c, o4, ty);
    let o6 = o5 + ", "@;
    let o7 = type_text(c, o6, ty);
    let o8 = o7 + "* "@;
    let o9 = o8 + "%p"@;
    let o10 = o9 + decimal(n as nat);
    let o11 = o10 + ", i32 0, i32 "@;
    let o12 = o11 + decimal(i as nat);
    let o13 = o12 + "\n"@;
    piece(t, o12, "\n"@);
    piece(t, o11, decimal(i as nat));
    piece(t, o10, ", i32 0, i32 "@);
    piece(t, o9, decimal(n as nat));
    piece(t, o8, "%p"@);
    piece(t, o7, "* "@);
    type_spells(c, o6, ty);
    piece(t, o6, type_word(c, ty));
    piece(t, o5, ", "@);
    type_spells(c, o4, ty);
    piece(t, o4, type_word(c, ty));
    piece(t, o3, " = getelementptr inbounds "@);
    piece(t, o2, decimal(n as nat));
    piece(t, o1, "%q"@);
    piece(t, o, "  "@);
    reveal_strlit("  ");
    reveal_strlit("%q");
    reveal_strlit(" = getelementptr inbounds ");
    reveal_strlit(" = ");
    reveal_strlit("getelementptr");
    reveal_strlit(" ");
    reveal_strlit("inbounds ");
    reveal_strlit("getelementptr inbounds ");
    begins_with(t, o3.len() as int, " = getelementptr inbounds "@, " = "@, "getelementptr inbounds "@);
    reveal_strlit(" inbounds ");
    begins_with(t, o3.len() as int + 3, "getelementptr inbounds "@, "getelementptr"@, " inbounds "@);
    begins_with(t, o3.len() as int + 16, " inbounds "@, " "@, "inbounds "@);
    reveal_strlit(", ");
    reveal_strlit("* ");
    reveal_strlit("*");
    begins_with(t, o7.len() as int, "* "@, "*"@, " "@);
    reveal_strlit("%p");
    reveal_strlit(", i32 0, i32 ");
    reveal_strlit("i32");
    reveal_strlit("0");
    reveal_strlit("i32 0, i32 ");
    begins_with(t, o10.len() as int, ", i32 0, i32 "@, ", "@, "i32 0, i32 "@);
    reveal_strlit(" 0, i32 ");
    begins_with(t, o10.len() as int + 2, "i32 0, i32 "@, "i32"@, " 0, i32 "@);
    reveal_strlit("0, i32 ");
    begins_with(t, o10.len() as int + 5, " 0, i32 "@, " "@, "0, i32 "@);
    reveal_strlit(", i32 ");
    begins_with(t, o10.len() as int + 6, "0, i32 "@, "0"@, ", i32 "@);
    reveal_strlit("i32 ");
    begins_with(t, o10.len() as int + 7, ", i32 "@, ", "@, "i32 "@);
    begins_with(t, o10.len() as int + 9, "i32 "@, "i32"@, " "@);
    reveal_strlit("\n");
    reveal_strlit("  %q");
    at_join(t, o.len() as int, "  "@, "%q"@);
    assert("  "@ + "%q"@ =~= "  %q"@);
    at_join(t, o6.len() as int, type_word(c, ty), "*"@);
    pointer_spells(type_word(c, ty));
    type_spells(c, Seq::empty(), LType::I32);
    common_types_are_spelled(c);
    type_spells(c, Seq::empty(), LType::I32);
    common_types_are_spelled(c);
    local_is_told(t, o8.len() as int, "%p"@, n as nat, ", "@);
    assert("0"@ =~= decimal(0));
    number_is_told(t, o10.len() as int + 6, 0, ", "@);
    integer_is_told(t, o10.len() as int + 6, 0, ", "@);
    number_is_told(t, o11.len() as int, i as nat, "\n"@);
    type_is_told(t, o4.len() as int, type_word(c, ty), ", "@);
    operand_is_read(t, o6.len() as int, star(type_word(c, ty)), Said::Local('p', n as nat), o10.len() as int);
    operand_is_read(t, o10.len() as int + 2, type_word(c, LType::I32), Said::Number(0), o10.len() as int + 7);
    integer_is_told(t, o11.len() as int, i as nat, "\n"@);
    operand_is_read(t, o10.len() as int + 9, type_word(c, LType::I32), Said::Number(i as nat), o12.len() as int);
    list_ends(t, o12.len() as int, false, "\n"@);
    at_another(t, o10.len() as int, ", "@, "\n"@);
    at_another(t, o10.len() as int + 7, ", "@, "\n"@);
    at_chars(t, o12.len() as int, "\n"@);
    operand_is_listed(t, o10.len() as int + 7, false, "\n"@, type_word(c, LType::I32), Said::Number(i as nat), o12.len() as int, Seq::empty(), o12.len() as int + 1);
    let last = seq![(type_word(c, LType::I32), Said::Number(i as nat))] + Seq::<(Seq<char>, Said)>::empty();
    operand_is_listed(t, o10.len() as int, false, "\n"@, type_word(c, LType::I32), Said::Number(0), o10.len() as int + 7, last, o12.len() as int + 1);
    assert(seq![(type_word(c, LType::I32), Said::Number(0))] + last =~= seq![(type_word(c, LType::I32), Said::Number(0)), (type_word(c, LType::I32), Said::Number(i as nat))]);
    told_getelementptr();
    definition_is_read(t, o.len() as int, "  %q"@, n as nat, "getelementptr"@, " "@);
}

/// The address of a field.
pub proof fn field_is_read(t: Seq<char>, o: Seq<char>, c: &EmitContext, nm: Names, n: usize, ty: LType, p: Val, i: usize)
    requires
        begins(t, memory_text(c, nm, o, n, Inst::Field(ty, p, i))),
    ensures
        begins(t, o),
        lines_at(t, o.len() as int, 3) == Some(
            (seq![Line::Define('p', n as nat, What::Cast(CastOp::BitCast, type_word(c, LType::Ptr), said(c, nm, p), star(type_word(c, ty)))), Line::Define('q', n as nat, What::Gep(true, type_word(c, ty), (star(type_word(c, ty)), Said::Local('p', n as nat)), seq![(type_word(c, LType::I32), Said::Number(0)), (type_word(c, LType::I32), Said::Number(i as nat))])), Line::Define('v', n as nat, What::Cast(CastOp::BitCast, star(type_word(c, field_type(c, ty, i))), Said::Local('q', n as nat), type_word(c, LType::Ptr)))], memory_text(c, nm, o, n, Inst::Field(ty, p, i)).len() as int),
        ),
{
    reveal(memory_text);
    let o1 = pointer_text(c, nm, o, n, p, ty);
    let o2 = field_line_text(c, nm, o1, n, ty, i);
    let o3 = untyped_text(c, nm, o2, n, field_type(c, ty, i));
    assert(o3 == memory_text(c, nm, o, n, Inst::Field(ty, p, i)));
    untyped_reads(t, o2, c, nm, n, field_type(c, ty, i));
    field_line_reads(t, o1, c, nm, n, ty, i);
    pointer_reads(t, o, c, nm, n, p, ty);
    three_lines(t, o.len() as int, Line::Define('p', n as nat, What::Cast(CastOp::BitCast, type_word(c, LType::Ptr), said(c, nm, p), star(type_word(c, ty)))), o1.len() as int, Line::Define('q', n as nat, What::Gep(true, type_word(c, ty), (star(type_word(c, ty)), Said::Local('p', n as nat)), seq![(type_word(c, LType::I32), Said::Number(0)), (type_word(c, LType::I32), Said::Number(i as nat))])), o2.len() as int, Line::Define('v', n as nat, What::Cast(CastOp::BitCast, star(type_word(c, field_type(c, ty, i))), Said::Local('q', n as nat), type_word(c, LType::Ptr))), o3.len() as int);
}

/// A load.
pub open spec fn load_line_text(c: &EmitContext, nm: Names, o: Seq<char>, n: usize, ty: LType) -> Seq<char> {
    let o1 = o + "  %v"@;
    let o2 = o1 + decimal(n as nat);
    let o3 = o2 + " = "@;
    let o4 = o3 + "load "@;
    let o5 = type_text(c, o4, ty);
    let o6 = o5 + ", "@;
    let o7 = type_text(c, o6, ty);
    let o8 = o7 + "* "@;
    let o9 = o8 + "%p"@;
    let o10 = o9 + decimal(n as nat);
    let o11 = o10 + "\n"@;
    o11
}

pub proof fn load_line_reads(t: Seq<char>, o: Seq<char>, c: &EmitContext, nm: Names, n: usize, ty: LType)
    requires
        begins(t, load_line_text(c, nm, o, n, ty)),
    ensures
        begins(t, o),
        line_at(t, o.len() as int) == Some(
            (Line::Define('v', n as nat, What::Load(type_word(c, ty), (star(type_word(c, ty)), Said::Local('p', n as nat)))), load_line_text(c, nm, o, n, ty).len() as int),
        ),
{
    let o1 = o + "  %v"@;
    let o2 = o1 + decimal(n as nat);
    let o3 = o2 + " = "@;
    let o4 = o3 + "load "@;
    let o5 = type_text(c, o4, ty);
    let o6 = o5 + ", "@;
    let o7 = type_text(c, o6, ty);
    let o8 = o7 + "* "@;
    let o9 = o8 + "%p"@;
    let o10 = o9 + decimal(n as nat);
    let o11 = o10 + "\n"@;
    piece(t, o10, "\n"@);
    piece(t, o9, decimal(n as nat));
    piece(t, o8, "%p"@);
    piece(t, o7, "* "@);
    type_spells(c, o6, ty);
    piece(t, o6, type_word(c, ty));
    piece(t, o5, ", "@);
    type_spells(c, o4, ty);
    piece(t, o4, type_word(c, ty));
    piece(t, o3, "load "@);
    piece(t, o2, " = "@);
    piece(t, o1, decimal(n as nat));
    piece(t, o, "  %v"@);
    reveal_strlit("  %v");
    reveal_strlit(" = ");
    reveal_strlit("load ");
    reveal_strlit("load");
    reveal_strlit(" ");
    begins_with(t, o3.len() as int, "load "@, "load"@, " "@);
    reveal_strlit(", ");
    reveal_strlit("* ");
    reveal_strlit("*");
    begins_with(t, o7.len() as int, "* "@, "*"@, " "@);
    reveal_strlit("%p");
    reveal_strlit("\n");
    at_join(t, o6.len() as int, type_word(c, ty), "*"@);
    pointer_spells(type_word(c, ty));
    local_is_told(t, o8.len() as int, "%p"@, n as nat, "\n"@);
    type_is_told(t, o4.len() as int, type_word(c, ty), ", "@);
    operand_is_read(t, o6.len() as int, star(type_word(c, ty)), Said::Local('p', n as nat), o10.len() as int);
    told_load();
    definition_is_read(t, o.len() as int, "  %v"@, n as nat, "load"@, " "@);
}

/// A load.
pub proof fn load_is_read(t: Seq<char>, o: Seq<char>, c: &EmitContext, nm: Names, n: usize, ty: LType, p: Val)
    requires
        begins(t, memory_text(c, nm, o, n, Inst::Load(ty, p))),
    ensures
        begins(t, o),
        lines_at(t, o.len() as int, 2) == Some(
            (seq![Line::Define('p', n as nat, What::Cast(CastOp::BitCast, type_word(c, LType::Ptr), said(c, nm, p), star(type_word(c, ty)))), Line::Define('v', n as nat, What::Load(type_word(c, ty), (star(type_word(c, ty)), Said::Local('p', n as nat))))], memory_text(c, nm, o, n, Inst::Load(ty, p)).len() as int),
        ),
{
    reveal(memory_text);
    let o1 = pointer_text(c, nm, o, n, p, ty);
    let o2 = load_line_text(c, nm, o1, n, ty);
    assert(o2 == memory_text(c, nm, o, n, Inst::Load(ty, p)));
    load_line_reads(t, o1, c, nm, n, ty);
    pointer_reads(t, o, c, nm, n, p, ty);
    two_lines(t, o.len() as int, Line::Define('p', n as nat, What::Cast(CastOp::BitCast, type_word(c, LType::Ptr), said(c, nm, p), star(type_word(c, ty)))), o1.len() as int, Line::Define('v', n as nat, What::Load(type_word(c, ty), (star(type_word(c, ty)), Said::Local('p', n as nat)))), o2.len() as int);
}

/// A store.
pub open spec fn store_line_text(c: &EmitContext, nm: Names, o: Seq<char>, n: usize, ty: LType, x: Val) -> Seq<char> {
    let o1 = o + "  store "@;
    let o2 = type_text(c, o1, ty);
    let o3 = o2 + " "@;
    let o4 = value_text(c, nm, o3, x);
    let o5 = o4 + ", "@;
    let o6 = type_text(c, o5, ty);
    let o7 = o6 + "* "@;
    let o8 = o7 + "%p"@;
    let o9 = o8 + decimal(n as nat);
    let o10 = o9 + "\n"@;
    o10
}

pub proof fn store_line_reads(t: Seq<char>, o: Seq<char>, c: &EmitContext, nm: Names, n: usize, ty: LType, x: Val)
    requires
        begins(t, store_line_text(c, nm, o, n, ty, x)),
    ensures
        begins(t, o),
        line_at(t, o.len() as int) == Some(
            (Line::Store((type_word(c, ty), said(c, nm, x)), (star(type_word(c, ty)), Said::Local('p', n as nat))), store_line_text(c, nm, o, n, ty, x).len() as int),
        ),
{
    let o1 = o + "  store "@;
    let o2 = type_text(c, o1, ty);
    let o3 = o2 + " "@;
    let o4 = value_text(c, nm, o3, x);
    let o5 = o4 + ", "@;
    let o6 = type_text(c, o5, ty);
    let o7 = o6 + "* "@;
    let o8 = o7 + "%p"@;
    let o9 = o8 + decimal(n as nat);
    let o10 = o9 + "\n"@;
    piece(t, o9, "\n"@);
    piece(t, o8, decimal(n as nat));
    piece(t, o7, "%p"@);
    piece(t, o6, "* "@);
    type_spells(c, o5, ty);
    piece(t, o5, type_word(c, ty));
    piece(t, o4, ", "@);
    value_spells(c, nm, o3, x);
    piece(t, o3, value_word(c, nm, x));
    piece(t, o2, " "@);
    type_spells(c, o1, ty);
    piece(t, o1, type_word(c, ty));
    piece(t, o, "  store "@);
    reveal_strlit("  store ");
    reveal_strlit("  ");
    reveal_strlit("store");
    reveal_strlit(" ");
    reveal_strlit("store ");
    begins_with(t, o.len() as int, "  store "@, "  "@, "store "@);
    begins_with(t, o.len() as int + 2, "store "@, "store"@, " "@);
    reveal_strlit(", ");
    reveal_strlit("* ");
    reveal_strlit("*");
    begins_with(t, o6.len() as int, "* "@, "*"@, " "@);
    reveal_strlit("%p");
    reveal_strlit("\n");
    at_join(t, o5.len() as int, type_word(c, ty), "*"@);
    pointer_spells(type_word(c, ty));
    value_is_told(t, o3.len() as int, c, nm, x, ", "@);
    local_is_told(t, o7.len() as int, "%p"@, n as nat, "\n"@);
    operand_is_read(t, o1.len() as int, type_word(c, ty), said(c, nm, x), o4.len() as int);
    operand_is_read(t, o5.len() as int, star(type_word(c, ty)), Said::Local('p', n as nat), o9.len() as int);
    done_store();
    doing_is_read(t, o.len() as int, "store"@, " "@);
}

/// A store.
pub proof fn store_is_read(t: Seq<char>, o: Seq<char>, c: &EmitContext, nm: Names, n: usize, ty: LType, x: Val, p: Val)
    requires
        begins(t, memory_text(c, nm, o, n, Inst::Store(ty, x, p))),
    ensures
        begins(t, o),
        lines_at(t, o.len() as int, 2) == Some(
            (seq![Line::Define('p', n as nat, What::Cast(CastOp::BitCast, type_word(c, LType::Ptr), said(c, nm, p), star(type_word(c, ty)))), Line::Store((type_word(c, ty), said(c, nm, x)), (star(type_word(c, ty)), Said::Local('p', n as nat)))], memory_text(c, nm, o, n, Inst::Store(ty, x, p)).len() as int),
        ),
{
    reveal(memory_text);
    let o1 = pointer_text(c, nm, o, n, p, ty);
    let o2 = store_line_text(c, nm, o1, n, ty, x);
    assert(o2 == memory_text(c, nm, o, n, Inst::Store(ty, x, p)));
    store_line_reads(t, o1, c, nm, n, ty, x);
    pointer_reads(t, o, c, nm, n, p, ty);
    two_lines(t, o.len() as int, Line::Define('p', n as nat, What::Cast(CastOp::BitCast, type_word(c, LType::Ptr), said(c, nm, p), star(type_word(c, ty)))), o1.len() as int, Line::Store((type_word(c, ty), said(c, nm, x)), (star(type_word(c, ty)), Said::Local('p', n as nat))), o2.len() as int);
}

/// A stack slot.
pub proof fn alloca_is_read(t: Seq<char>, o: Seq<char>, c: &EmitContext, nm: Names, n: usize, ty: LType)
    requires
        begins(t, memory_text(c, nm, o, n, Inst::Alloca(ty))),
    ensures
        begins(t, o),
        lines_at(t, o.len() as int, 2) == Some(
            (seq![Line::Define('p', n as nat, What::Alloca(type_word(c, ty))), Line::Define('v', n as nat, What::Cast(CastOp::BitCast, star(type_word(c, ty)), Said::Local('p', n as nat), type_word(c, LType::Ptr)))], memory_text(c, nm, o, n, Inst::Alloca(ty)).len() as int),
        ),
{
    reveal(memory_text);
    let o1 = o + "  "@;
    let o2 = o1 + "%p"@;
    let o3 = o2 + decimal(n as nat);
    let o4 = o3 + " = alloca "@;
    let o5 = type_text(c, o4, ty);
    let o6 = o5 + "\n"@;
    let o7 = o6 + "  %v"@;
    let o8 = o7 + decimal(n as nat);
    let o9 = o8 + " = "@;
    let o10 = o9 + "bitcast "@;
    let o11 = type_text(c, o10, ty);
    let o12 = o11 + "* "@;
    let o13 = o12 + "%p"@;
    let o14 = o13 + decimal(n as nat);
    let o15 = o14 + " to i8*\n"@;
    piece(t, o14, " to i8*\n"@);
    piece(t, o13, decimal(n as nat));
    piece(t, o12, "%p"@);
    piece(t, o11, "* "@);
    type_spells(c, o10, ty);
    piece(t, o10, type_word(c, ty));
    piece(t, o9, "bitcast "@);
    piece(t, o8, " = "@);
    piece(t, o7, decimal(n as nat));
    piece(t, o6, "  %v"@);
    piece(t, o5, "\n"@);
    type_spells(c, o4, ty);
    piece(t, o4, type_word(c, ty));
    piece(t, o3, " = alloca "@);
    piece(t, o2, decimal(n as nat));
    piece(t, o1, "%p"@);
    piece(t, o, "  "@);
    reveal_strlit("  ");
    reveal_strlit("%p");
    reveal_strlit(" = alloca ");
    reveal_strlit(" = ");
    reveal_strlit("alloca");
    reveal_strlit(" ");
    reveal_strlit("alloca ");
    begins_with(t, o3.len() as int, " = alloca "@, " = "@, "alloca "@);
    begins_with(t, o3.len() as int + 3, "alloca "@, "alloca"@, " "@);
    reveal_strlit("\n");
    reveal_strlit("  %v");
    reveal_strlit("bitcast ");
    reveal_strlit("bitcast");
    begins_with(t, o9.len() as int, "bitcast "@, "bitcast"@, " "@);
    reveal_strlit("* ");
    reveal_strlit("*");
    begins_with(t, o11.len() as int, "* "@, "*"@, " "@);
    reveal_strlit(" to i8*\n");
    reveal_strlit(" to ");
    reveal_strlit("i8*");
    reveal_strlit("i8*\n");
    begins_with(t, o14.len() as int, " to i8*\n"@, " to "@, "i8*\n"@);
    begins_with(t, o14.len() as int + 4, "i8*\n"@, "i8*"@, "\n"@);
    reveal_strlit("  %p");
    at_join(t, o.len() as int, "  "@, "%p"@);
    assert("  "@ + "%p"@ =~= "  %p"@);
    at_join(t, o10.len() as int, type_word(c, ty), "*"@);
    pointer_spells(type_word(c, ty));
    type_spells(c, Seq::empty(), LType::Ptr);
    common_types_are_spelled(c);
    local_is_told(t, o12.len() as int, "%p"@, n as nat, " to "@);
    type_is_told(t, o4.len() as int, type_word(c, ty), "\n"@);
    operand_is_read(t, o10.len() as int, star(type_word(c, ty)), Said::Local('p', n as nat), o14.len() as int);
    type_ends_line(t, o14.len() as int + 4, type_word(c, LType::Ptr));
    told_alloca();
    definition_is_read(t, o.len() as int, "  %p"@, n as nat, "alloca"@, " "@);
    assert(line_at(t, o.len() as int) == Some((Line::Define('p', n as nat, What::Alloca(type_word(c, ty))), o6.len() as int)));
    cast_is_told(CastOp::BitCast);
    definition_is_read(t, o6.len() as int, "  %v"@, n as nat, "bitcast"@, " "@);
    assert(line_at(t, o6.len() as int) == Some((Line::Define('v', n as nat, What::Cast(CastOp::BitCast, star(type_word(c, ty)), Said::Local('p', n as nat), type_word(c, LType::Ptr))), o15.len() as int)));
    two_lines(t, o.len() as int, Line::Define('p', n as nat, What::Alloca(type_word(c, ty))), o6.len() as int, Line::Define('v', n as nat, What::Cast(CastOp::BitCast, star(type_word(c, ty)), Said::Local('p', n as nat), type_word(c, LType::Ptr))), o15.len() as int);
}

/// A jump.
pub proof fn br_is_read(t: Seq<char>, o: Seq<char>, c: &EmitContext, nm: Names, n: usize, b: usize)
    requires
        begins(t, control_text(c, nm, o, n, Inst::Br(b))),
    ensures
        begins(t, o),
        lines_at(t, o.len() as int, 1) == Some(
            (seq![Line::Br(b as nat)], control_text(c, nm, o, n, Inst::Br(b)).len() as int),
        ),
{
    reveal(control_text);
    let o1 = o + "  br label %"@;
    let o2 = label_text(o1, nm.labels, b as nat);
    let o3 = o2 + "\n"@;
    piece(t, o2, "\n"@);
    label_spells(o1, nm.labels, b as nat);
    piece(t, o1, label_word(nm.labels, b as nat));
    piece(t, o, "  br label %"@);
    reveal_strlit("  br label %");
    reveal_strlit("  ");
    reveal_strlit("br");
    reveal_strlit(" ");
    reveal_strlit("label %");
    reveal_strlit("br label %");
    begins_with(t, o.len() as int, "  br label %"@, "  "@, "br label %"@);
    reveal_strlit(" label %");
    begins_with(t, o.len() as int + 2, "br label %"@, "br"@, " label %"@);
    begins_with(t, o.len() as int + 4, " label %"@, " "@, "label %"@);
    reveal_strlit("\n");
    label_is_read(t, o1.len() as int, nm.labels, b as nat);
    done_br();
    doing_is_read(t, o.len() as int, "br"@, " "@);
    assert(line_at(t, o.len() as int) == Some((Line::Br(b as nat), o3.len() as int)));
    one_line(t, o.len() as int, Line::Br(b as nat), o3.len() as int);
}

/// A branch: the first label is that of the block taken where the condition is 1.
pub proof fn cond_br_is_read(t: Seq<char>, o: Seq<char>, c: &EmitContext, nm: Names, n: usize, x: Val, a: usize, b: usize)
    requires
        begins(t, control_text(c, nm, o, n, Inst::CondBr(x, a, b))),
    ensures
        begins(t, o),
        lines_at(t, o.len() as int, 1) == Some(
            (seq![Line::CondBr((type_word(c, LType::I1), said(c, nm, x)), a as nat, b as nat)], control_text(c, nm, o, n, Inst::CondBr(x, a, b)).len() as int),
        ),
{
    reveal(control_text);
    let o1 = o + "  br "@;
    let o2 = type_text(c, o1, LType::I1);
    let o3 = o2 + " "@;
    let o4 = value_text(c, nm, o3, x);
    let o5 = o4 + ", label %"@;
    let o6 = label_text(o5, nm.labels, a as nat);
    let o7 = o6 + ", label %"@;
    let o8 = label_text(o7, nm.labels, b as nat);
    let o9 = o8 + "\n"@;
    piece(t, o8, "\n"@);
    label_spells(o7, nm.labels, b as nat);
    piece(t, o7, label_word(nm.labels, b as nat));
    piece(t, o6, ", label %"@);
    label_spells(o5, nm.labels, a as nat);
    piece(t, o5, label_word(nm.labels, a as nat));
    piece(t, o4, ", label %"@);
    value_spells(c, nm, o3, x);
    piece(t, o3, value_word(c, nm, x));
    piece(t, o2, " "@);
    type_spells(c, o1, LType::I1);
    piece(t, o1, type_word(c, LType::I1));
    piece(t, o, "  br "@);
    reveal_strlit("  br ");
    reveal_strlit("  ");
    reveal_strlit("br");
    reveal_strlit(" ");
    reveal_strlit("br ");
    begins_with(t, o.len() as int, "  br "@, "  "@, "br "@);
    begins_with(t, o.len() as int + 2, "br "@, "br"@, " "@);
    reveal_strlit(", label %");
    reveal_strlit("\n");
    value_is_told(t, o3.len() as int, c, nm, x, ", label %"@);
    label_is_read(t, o5.len() as int, nm.labels, a as nat);
    label_is_read(t, o7.len() as int, nm.labels, b as nat);
    operand_is_read(t, o1.len() as int, type_word(c, LType::I1), said(c, nm, x), o4.len() as int);
    reveal_strlit("i1");
    reveal_strlit("label %");
    common_types_are_spelled(c);
    at_another(t, o1.len() as int, "i1"@, "label %"@);
    done_br();
    doing_is_read(t, o.len() as int, "br"@, " "@);
    assert(line_at(t, o.len() as int) == Some((Line::CondBr((type_word(c, LType::I1), said(c, nm, x)), a as nat, b as nat), o9.len() as int)));
    one_line(t, o.len() as int, Line::CondBr((type_word(c, LType::I1), said(c, nm, x)), a as nat, b as nat), o9.len() as int);
}

/// A return.
pub proof fn ret_is_read(t: Seq<char>, o: Seq<char>, c: &EmitContext, nm: Names, n: usize, ty: LType, x: Val)
    requires
        begins(t, control_text(c, nm, o, n, Inst::Ret(ty, x))),
    ensures
        begins(t, o),
        lines_at(t, o.len() as int, 1) == Some(
            (seq![Line::Ret(type_word(c, ty), said(c, nm, x))], control_text(c, nm, o, n, Inst::Ret(ty, x)).len() as int),
        ),
{
    reveal(control_text);
    let o1 = o + "  ret "@;
    let o2 = type_text(c, o1, ty);
    let o3 = o2 + " "@;
    let o4 = value_text(c, nm, o3, x);
    let o5 = o4 + "\n"@;
    piece(t, o4, "\n"@);
    value_spells(c, nm, o3, x);
    piece(t, o3, value_word(c, nm, x));
    piece(t, o2, " "@);
    type_spells(c, o1, ty);
    piece(t, o1, type_word(c, ty));
    piece(t, o, "  ret "@);
    reveal_strlit("  ret ");
    reveal_strlit("  ");
    reveal_strlit("ret");
    reveal_strlit(" ");
    reveal_strlit("ret ");
    begins_with(t, o.len() as int, "  ret "@, "  "@, "ret "@);
    begins_with(t, o.len() as int + 2, "ret "@, "ret"@, " "@);
    reveal_strlit("\n");
    value_is_told(t, o3.len() as int, c, nm, x, "\n"@);
    operand_is_read(t, o1.len() as int, type_word(c, ty), said(c, nm, x), o4.len() as int);
    type_is_no_end(t, o1.len() as int, type_word(c, ty));
    done_ret();
    doing_is_read(t, o.len() as int, "ret"@, " "@);
    assert(line_at(t, o.len() as int) == Some((Line::Ret(type_word(c, ty), said(c, nm, x)), o5.len() as int)));
    one_line(t, o.len() as int, Line::Ret(type_word(c, ty), said(c, nm, x)), o5.len() as int);
}

/// A return without a value.
pub proof fn ret_void_is_read(t: Seq<char>, o: Seq<char>, c: &EmitContext, nm: Names, n: usize)
    requires
        begins(t, control_text(c, nm, o, n, Inst::RetVoid)),
    ensures
        begins(t, o),
        lines_at(t, o.len() as int, 1) == Some(
            (seq![Line::RetVoid], control_text(c, nm, o, n, Inst::RetVoid).len() as int),
        ),
{
    reveal(control_text);
    let w = "  ret void\n"@;
    reveal_strlit("  ret void\n");
    reveal_strlit("  ");
    reveal_strlit("ret");
    reveal_strlit(" ");
    reveal_strlit("void\n");
    piece(t, o, w);
    let p = o.len() as int;
    begins_with(t, p, w, "  "@, "ret"@ + " "@ + "void\n"@);
    begins_with(t, p + 2, "ret"@ + " "@ + "void\n"@, "ret"@, " "@ + "void\n"@);
    begins_with(t, p + 5, " "@ + "void\n"@, " "@, "void\n"@);
    done_ret();
    doing_is_read(t, p, "ret"@, " "@);
    one_line(t, p, Line::RetVoid, p + 11);
}

/// What is never reached.
pub proof fn unreachable_is_read(t: Seq<char>, o: Seq<char>)
    requires
        begins(t, o + "  unreachable\n"@),
    ensures
        begins(t, o),
        lines_at(t, o.len() as int, 1) == Some(
            (seq![Line::Unreachable], (o + "  unreachable\n"@).len() as int),
        ),
{
    let w = "  unreachable\n"@;
    reveal_strlit("  unreachable\n");
    reveal_strlit("  ");
    reveal_strlit("unreachable");
    reveal_strlit("\n");
    piece(t, o, w);
    let p = o.len() as int;
    begins_with(t, p, w, "  "@, "unreachable"@ + "\n"@);
    begins_with(t, p + 2, "unreachable"@ + "\n"@, "unreachable"@, "\n"@);
    done_unreachable();
    doing_is_read(t, p, "unreachable"@, "\n"@);
    one_line(t, p, Line::Unreachable, p + 14);
}

} // verus!
