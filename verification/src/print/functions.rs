//! Functions in text form.

use vstd::prelude::*;

use crate::ctx::{Declared, EmitContext};
use crate::llvm::{Body, Code, Edge, Entry, LType};
use crate::print::insts::{inst_text, put_inst};
use crate::print::types::{put_type, put_types_list, type_text, types_list_text};
use crate::print::values::{
    label_text, literal_name, literal_type_text, literals, put_label, put_literal_name, put_literal_type, put_shim_name, shim_name,
    Names, Place,
};
use crate::emit::heap_layout::RC_IMMORTAL;
use crate::text::{
    decimal, escaped, escaped_bytes, put, put_escaped, put_escaped_bytes, put_num, put_usize,
};

verus! {

/// What `o` says, then the first `k` parameters with their names.
pub open spec fn params_text(c: &EmitContext, o: Seq<char>, params: Seq<LType>, k: nat) -> Seq<char>
    decreases k,
{
    if k == 0 {
        o
    } else {
        let o = params_text(c, o, params, (k - 1) as nat);
        let o = if k > 1 {
            o + ", "@
        } else {
            o
        };
        type_text(c, o, params[k - 1]) + " %a"@ + decimal((k - 1) as nat)
    }
}

fn put_params(c: &EmitContext, out: &mut String, params: &Vec<LType>)
    ensures
        final(out)@ == params_text(c, old(out)@, params@, params@.len()),
{
    let mut i: usize = 0;
    while i < params.len()
        invariant
            i <= params@.len(),
            out@ == params_text(c, old(out)@, params@, i as nat),
        decreases params@.len() - i,
    {
        if i > 0 {
            put(out, ", ");
        }
        put_type(c, out, params[i]);
        put(out, " %a");
        put_usize(out, i);
        i = i + 1;
    }
}

/// What `o` says, then the newest `k` stack slots of the entry block, the
/// newest first.
pub open spec fn slots_text(c: &EmitContext, o: Seq<char>, slots: Seq<LType>, k: nat) -> Seq<char>
    decreases k,
{
    if k == 0 {
        o
    } else {
        let n = (slots.len() - k) as nat;
        let o = slots_text(c, o, slots, (k - 1) as nat) + "  %t"@ + decimal(n) + " = alloca "@;
        let o = type_text(c, o, slots[n as int]) + "\n  %s"@ + decimal(n) + " = bitcast "@;
        type_text(c, o, slots[n as int]) + "* %t"@ + decimal(n) + " to i8*\n"@
    }
}

fn put_slots(c: &EmitContext, out: &mut String, slots: &Vec<LType>)
    ensures
        final(out)@ == slots_text(c, old(out)@, slots@, slots@.len()),
{
    let mut i: usize = slots.len();
    while i > 0
        invariant
            i <= slots@.len(),
            out@ == slots_text(c, old(out)@, slots@, (slots@.len() - i) as nat),
        decreases i,
    {
        i = i - 1;
        put(out, "  %t");
        put_usize(out, i);
        put(out, " = alloca ");
        put_type(c, out, slots[i]);
        put(out, "\n  %s");
        put_usize(out, i);
        put(out, " = bitcast ");
        put_type(c, out, slots[i]);
        put(out, "* %t");
        put_usize(out, i);
        put(out, " to i8*\n");
    }
}

/// What `o` says, then those of the first `k` instructions that stand in
/// a block.
pub open spec fn entries_text(
    c: &EmitContext,
    nm: Names,
    o: Seq<char>,
    edges: Seq<Edge>,
    log: Seq<Entry>,
    block: usize,
    k: nat,
) -> Seq<char>
    decreases k,
{
    if k == 0 {
        o
    } else {
        let o = entries_text(c, nm, o, edges, log, block, (k - 1) as nat);
        if log[k - 1].block == block {
            inst_text(c, nm, o, edges, (k - 1) as usize, log[k - 1].inst)
        } else {
            o
        }
    }
}

fn put_entries(c: &EmitContext, pl: &Place<'_>, out: &mut String, body: &Body, block: usize)
    ensures
        final(out)@ == entries_text(
            c,
            pl@,
            old(out)@,
            body.edges@,
            body.log@,
            block,
            body.log@.len(),
        ),
{
    let mut i: usize = 0;
    while i < body.log.len()
        invariant
            i <= body.log@.len(),
            out@ == entries_text(c, pl@, old(out)@, body.edges@, body.log@, block, i as nat),
        decreases body.log@.len() - i,
    {
        if body.log[i].block == block {
            put_inst(c, pl, out, &body.edges, i, &body.log[i].inst);
        }
        i = i + 1;
    }
}

/// What `o` says, then the first `k` blocks of a body. The stack slots
/// stand at the head of the first one.
pub open spec fn blocks_text(c: &EmitContext, nm: Names, o: Seq<char>, code: Code, k: nat) -> Seq<char>
    decreases k,
{
    if k == 0 {
        o
    } else {
        let b = (k - 1) as nat;
        let o = label_text(blocks_text(c, nm, o, code, b), nm.labels, b) + ":\n"@;
        let o = if b == 0 {
            slots_text(c, o, code.slots, code.slots.len())
        } else {
            o
        };
        entries_text(c, nm, o, code.edges, code.log, b as usize, code.log.len())
    }
}

fn put_blocks(c: &EmitContext, pl: &Place<'_>, out: &mut String, body: &Body)
    ensures
        final(out)@ == blocks_text(c, pl@, old(out)@, body@, body@.blocks),
{
    let mut b: usize = 0;
    while b < body.labels.len()
        invariant
            b <= body.labels@.len(),
            out@ == blocks_text(c, pl@, old(out)@, body@, b as nat),
        decreases body.labels@.len() - b,
    {
        put_label(out, pl.labels, b);
        put(out, ":\n");
        if b == 0 {
            put_slots(c, out, &body.slots);
        }
        put_entries(c, pl, out, body, b);
        b = b + 1;
    }
}

/// What `o` says, then a function: declared where it has no body here,
/// and defined with a frame pointer and unwind tables otherwise.
pub open spec fn function_text(
    c: &EmitContext,
    nm: Names,
    o: Seq<char>,
    d: Declared,
    code: Code,
) -> Seq<char> {
    if !d.defined || code.log.len() == 0 {
        let o = type_text(c, o + "declare "@, d.ret) + " @\""@;
        let o = escaped(o, d.name@) + "\"("@;
        types_list_text(c, o, d.params@, d.params@.len()) + ")\n"@
    } else {
        let o = type_text(c, o + "define "@, d.ret) + " @\""@;
        let o = escaped(o, d.name@) + "\"("@;
        let o = params_text(c, o, d.params@, d.params@.len())
            + ") uwtable \"frame-pointer\"=\"all\" {\n"@;
        blocks_text(c, nm, o, code, code.blocks) + "}\n"@
    }
}

/// Appends a function.
pub fn put_function(c: &EmitContext, pl: &Place<'_>, out: &mut String, d: &Declared, body: &Body)
    ensures
        final(out)@ == function_text(c, pl@, old(out)@, *d, body@),
{
    if !d.defined || body.log.len() == 0 {
        put(out, "declare ");
        put_type(c, out, d.ret);
        put(out, " @\"");
        put_escaped(out, d.name.as_str());
        put(out, "\"(");
        put_types_list(c, out, &d.params);
        put(out, ")\n");
    } else {
        put(out, "define ");
        put_type(c, out, d.ret);
        put(out, " @\"");
        put_escaped(out, d.name.as_str());
        put(out, "\"(");
        put_params(c, out, &d.params);
        put(out, ") uwtable \"frame-pointer\"=\"all\" {\n");
        put_blocks(c, pl, out, body);
        put(out, "}\n");
    }
}

/// What `o` says, then the drop shim of a message type.
pub open spec fn shim_text(c: &EmitContext, nm: Names, o: Seq<char>, i: nat, code: Code) -> Seq<char> {
    let o = shim_name(o + "define private void "@, i) + "(i8* %a0) uwtable \"frame-pointer\"=\"all\" {\n"@;
    blocks_text(c, nm, o, code, code.blocks) + "}\n"@
}

/// Appends the drop shim of a message type.
pub fn put_shim(c: &EmitContext, pl: &Place<'_>, out: &mut String, i: usize, body: &Body)
    ensures
        final(out)@ == shim_text(c, pl@, old(out)@, i as nat, body@),
{
    put(out, "define private void ");
    put_shim_name(out, i);
    put(out, "(i8* %a0) uwtable \"frame-pointer\"=\"all\" {\n");
    put_blocks(c, pl, out, body);
    put(out, "}\n");
}

/// What `o` says, then the first `k` string literals of a function: each
/// an immortal heap block.
pub open spec fn literals_text(o: Seq<char>, function: nat, texts: Seq<Seq<u8>>, k: nat) -> Seq<char>
    decreases k,
{
    if k == 0 {
        o
    } else {
        let n = (k - 1) as nat;
        let bytes = texts[n as int];
        let size = decimal(bytes.len());
        let o = literal_name(literals_text(o, function, texts, n), function, n) + " = private constant "@;
        let o = literal_type_text(o, bytes) + " { i64 "@ + decimal(RC_IMMORTAL as nat)
            + ", i64 mul (i64 "@ + size + ", i64 8), ["@ + size + " x i8] c\""@;
        escaped_bytes(o, bytes, bytes.len()) + "\", i8 0 }\n"@
    }
}

/// Appends the string literals of a function.
pub fn put_literals(out: &mut String, function: usize, texts: &Vec<Vec<u8>>)
    ensures
        final(out)@ == literals_text(
            old(out)@,
            function as nat,
            literals(texts@),
            texts@.len(),
        ),
{
    let mut i: usize = 0;
    while i < texts.len()
        invariant
            i <= texts@.len(),
            out@ == literals_text(old(out)@, function as nat, literals(texts@), i as nat),
        decreases texts@.len() - i,
    {
        let bytes = &texts[i];
        put_literal_name(out, function, i);
        put(out, " = private constant ");
        put_literal_type(out, bytes);
        put(out, " { i64 ");
        put_num(out, RC_IMMORTAL);
        put(out, ", i64 mul (i64 ");
        put_usize(out, bytes.len());
        put(out, ", i64 8), [");
        put_usize(out, bytes.len());
        put(out, " x i8] c\"");
        put_escaped_bytes(out, bytes.as_slice());
        put(out, "\", i8 0 }\n");
        i = i + 1;
    }
}

} // verus!
