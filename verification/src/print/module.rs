//! Whole modules in text form.

use vstd::prelude::*;
use vstd::utf8::encode_utf8;
use crate::ctx::{last_enum, last_struct, EmitContext};
use crate::emit::closures::{env_glue_ptr, glue_pointer};
use crate::emit::heap_layout::RC_IMMORTAL;
use crate::emit::process::{payload_words, words_for};
use crate::function::{find_linked, first_linked};
use crate::intrinsics::element::release_in_slot_code;
use crate::intrinsics::process::build_payload_drop_shim;
use crate::ir::{IREnumDecl, IREnumVariant, IRSymbol, IRType};
use crate::layout::structs::{define_struct_body, struct_body};
use crate::layout::unions::{define_union_body, union_words};
use crate::llvm::{start, Body, Code, Inst, LType, Val};
use crate::print::functions::{
    function_text, literals_text, put_function, put_literals, put_shim, shim_text,
};
use crate::print::types::{put_type, put_types_list, type_text, types_list_text};
use crate::print::values::{literals, put_value, value_text, Names, Place};
use crate::runtime::{link_name, link_text, rt_params, rt_ret, rt_return, rt_sig, Rt};
use crate::text::{byte_length, decimal, escaped, put, put_escaped, put_num, put_usize};
use crate::types::{value_basic_type, value_type};

verus! {

/// The LLVM types of some types.
pub open spec fn lowered(types: Seq<IRType>) -> Seq<LType> {
    Seq::new(types.len(), |i: int| value_type(types[i]))
}

fn lower_all(types: &Vec<IRType>) -> (r: Vec<LType>)
    ensures
        r@ == lowered(types@),
{
    let mut out: Vec<LType> = Vec::new();
    let mut i: usize = 0;
    while i < types.len()
        invariant
            i <= types@.len(),
            out@ == lowered(types@).subrange(0, i as int),
        decreases types@.len() - i,
    {
        out.push(value_basic_type(types[i]));
        i = i + 1;
        assert(out@ =~= lowered(types@).subrange(0, i as int));
    }
    assert(out@ =~= lowered(types@));
    out
}

/// What `o` says, then the types of the first `k` structs. Of a struct that
/// is declared twice the later declaration stands.
pub open spec fn structs_text(c: &EmitContext, o: Seq<char>, k: nat) -> Seq<char>
    decreases k,
{
    if k == 0 {
        o
    } else {
        let n = (k - 1) as nat;
        let o = structs_text(c, o, n);
        let decl = c.structs@[n as int];
        if last_struct(c.structs@, decl.symbol, c.structs@.len()) == Some(n as int) {
            let o = type_text(c, o, LType::Struct(decl.symbol)) + " = type { "@;
            types_list_text(c, o, struct_body(decl), decl.fields@.len()) + " }\n"@
        } else {
            o
        }
    }
}

fn put_structs(c: &EmitContext, out: &mut String)
    ensures
        final(out)@ == structs_text(c, old(out)@, c.structs@.len()),
{
    let mut i: usize = 0;
    while i < c.structs.len()
        invariant
            i <= c.structs@.len(),
            out@ == structs_text(c, old(out)@, i as nat),
        decreases c.structs@.len() - i,
    {
        match c.find_struct(c.structs[i].symbol) {
            Some(last) => if last == i {
                put_type(c, out, LType::Struct(c.structs[i].symbol));
                put(out, " = type { ");
                let body = define_struct_body(&c.structs[i]);
                put_types_list(c, out, &body);
                put(out, " }\n");
            },
            None => {},
        }
        i = i + 1;
    }
}

/// How many words hold the widest of the first `k` variants, at least
/// one.
pub open spec fn enum_words(c: &EmitContext, symbol: IRSymbol, variants: Seq<IREnumVariant>, k: nat) -> usize
    decreases k,
{
    if k == 0 {
        1
    } else {
        let rest = enum_words(c, symbol, variants, (k - 1) as nat);
        let words = words_for(c.abi(LType::Variant(symbol, variants[k - 1].tag.0)));
        if words > rest {
            words
        } else {
            rest
        }
    }
}

fn widest_variant(c: &EmitContext, decl: &IREnumDecl) -> (r: usize)
    ensures
        r == enum_words(c, decl.symbol, decl.variants@, decl.variants@.len()),
{
    let mut words: usize = 1;
    let mut i: usize = 0;
    while i < decl.variants.len()
        invariant
            i <= decl.variants@.len(),
            words == enum_words(c, decl.symbol, decl.variants@, i as nat),
        decreases decl.variants@.len() - i,
    {
        let size: u64 = c.abi_size(LType::Variant(decl.symbol, decl.variants[i].tag.0));
        let w: usize = payload_words(size);
        if w > words {
            words = w;
        }
        i = i + 1;
    }
    words
}

/// What `o` says, then the types of the first `k` variants of an enum:
/// each one's fields, and the tag in front of them.
pub open spec fn variants_text(
    c: &EmitContext,
    o: Seq<char>,
    symbol: IRSymbol,
    variants: Seq<IREnumVariant>,
    k: nat,
) -> Seq<char>
    decreases k,
{
    if k == 0 {
        o
    } else {
        let o = variants_text(c, o, symbol, variants, (k - 1) as nat);
        let tag = variants[k - 1].tag.0;
        let slots = lowered(c.payload(symbol, tag));
        let o = type_text(c, o, LType::Payload(symbol, tag)) + " = type { "@;
        let o = types_list_text(c, o, slots, slots.len()) + " }\n"@;
        let o = type_text(c, o, LType::Variant(symbol, tag)) + " = type { i8, [0 x i8], "@;
        type_text(c, o, LType::Payload(symbol, tag)) + " }\n"@
    }
}

fn put_variants(c: &EmitContext, out: &mut String, decl: &IREnumDecl)
    ensures
        final(out)@ == variants_text(
            c,
            old(out)@,
            decl.symbol,
            decl.variants@,
            decl.variants@.len(),
        ),
{
    let mut i: usize = 0;
    while i < decl.variants.len()
        invariant
            i <= decl.variants@.len(),
            out@ == variants_text(c, old(out)@, decl.symbol, decl.variants@, i as nat),
        decreases decl.variants@.len() - i,
    {
        let tag: u8 = decl.variants[i].tag.0;
        let slots = lower_all(&c.enum_variant_payload(decl.symbol, tag));
        put_type(c, out, LType::Payload(decl.symbol, tag));
        put(out, " = type { ");
        put_types_list(c, out, &slots);
        put(out, " }\n");
        put_type(c, out, LType::Variant(decl.symbol, tag));
        put(out, " = type { i8, [0 x i8], ");
        put_type(c, out, LType::Payload(decl.symbol, tag));
        put(out, " }\n");
        i = i + 1;
    }
}

/// What `o` says, then the types of the first `k` enums. The outer type of an enum
/// is as many words as its widest variant takes. Of an enum that is declared
/// twice the later declaration stands.
pub open spec fn enums_text(c: &EmitContext, o: Seq<char>, k: nat) -> Seq<char>
    decreases k,
{
    if k == 0 {
        o
    } else {
        let n = (k - 1) as nat;
        let o = enums_text(c, o, n);
        let decl = c.enums@[n as int];
        let all = decl.variants@;
        if last_enum(c.enums@, decl.symbol, c.enums@.len()) == Some(n as int) {
            let o = variants_text(c, o, decl.symbol, all, all.len());
            let o = type_text(c, o, LType::Enum(decl.symbol)) + " = type { ["@;
            o + decimal(enum_words(c, decl.symbol, all, all.len()) as nat) + " x i64] }\n"@
        } else {
            o
        }
    }
}

fn put_enums(c: &EmitContext, out: &mut String)
    ensures
        final(out)@ == enums_text(c, old(out)@, c.enums@.len()),
{
    let mut i: usize = 0;
    while i < c.enums.len()
        invariant
            i <= c.enums@.len(),
            out@ == enums_text(c, old(out)@, i as nat),
        decreases c.enums@.len() - i,
    {
        match c.find_enum(c.enums[i].symbol) {
            Some(last) => if last == i {
                put_variants(c, out, &c.enums[i]);
                put_type(c, out, LType::Enum(c.enums[i].symbol));
                put(out, " = type { [");
                put_usize(out, widest_variant(c, &c.enums[i]));
                put(out, " x i64] }\n");
            },
            None => {},
        }
        i = i + 1;
    }
}

/// What `o` says, then the types of the first `k` unions.
pub open spec fn unions_text(c: &EmitContext, o: Seq<char>, k: nat) -> Seq<char>
    decreases k,
{
    if k == 0 {
        o
    } else {
        let n = (k - 1) as nat;
        let o = unions_text(c, o, n);
        let o = type_text(c, o, LType::Union(n as usize)) + " = type { i64, ["@;
        o + decimal(union_words(c.unions@[n as int]) as nat) + " x i64] }\n"@
    }
}

fn put_unions(c: &EmitContext, out: &mut String)
    ensures
        final(out)@ == unions_text(c, old(out)@, c.unions@.len()),
{
    let mut i: usize = 0;
    while i < c.unions.len()
        invariant
            i <= c.unions@.len(),
            out@ == unions_text(c, old(out)@, i as nat),
        decreases c.unions@.len() - i,
    {
        put_type(c, out, LType::Union(i));
        put(out, " = type { i64, [");
        put_num(out, define_union_body(&c.unions[i]) as u64);
        put(out, " x i64] }\n");
        i = i + 1;
    }
}

/// What `o` says, then the types of the first `k` tuples.
pub open spec fn tuples_text(c: &EmitContext, o: Seq<char>, k: nat) -> Seq<char>
    decreases k,
{
    if k == 0 {
        o
    } else {
        let n = (k - 1) as nat;
        let o = tuples_text(c, o, n);
        let slots = lowered(c.tuples@[n as int]@);
        let o = type_text(c, o, LType::Tuple(n as usize)) + " = type { "@;
        types_list_text(c, o, slots, slots.len()) + " }\n"@
    }
}

fn put_tuples(c: &EmitContext, out: &mut String)
    ensures
        final(out)@ == tuples_text(c, old(out)@, c.tuples@.len()),
{
    let mut i: usize = 0;
    while i < c.tuples.len()
        invariant
            i <= c.tuples@.len(),
            out@ == tuples_text(c, old(out)@, i as nat),
        decreases c.tuples@.len() - i,
    {
        let slots = lower_all(&c.tuples[i]);
        put_type(c, out, LType::Tuple(i));
        put(out, " = type { ");
        put_types_list(c, out, &slots);
        put(out, " }\n");
        i = i + 1;
    }
}

/// What `o` says, then the types of the first `k` environments: the header, then the
/// captures.
pub open spec fn envs_text(c: &EmitContext, o: Seq<char>, k: nat) -> Seq<char>
    decreases k,
{
    if k == 0 {
        o
    } else {
        let n = (k - 1) as nat;
        let o = envs_text(c, o, n);
        let header = seq![LType::I64, LType::Ptr, LType::Ptr, LType::I64, LType::Ptr];
        let slots = header + lowered(c.envs@[n as int]@);
        let o = type_text(c, o, LType::Env(n as usize)) + " = type { "@;
        types_list_text(c, o, slots, slots.len()) + " }\n"@
    }
}

fn put_envs(c: &EmitContext, out: &mut String)
    ensures
        final(out)@ == envs_text(c, old(out)@, c.envs@.len()),
{
    let mut i: usize = 0;
    while i < c.envs.len()
        invariant
            i <= c.envs@.len(),
            out@ == envs_text(c, old(out)@, i as nat),
        decreases c.envs@.len() - i,
    {
        let mut slots: Vec<LType> = vec![LType::I64, LType::Ptr, LType::Ptr, LType::I64, LType::Ptr];
        let ghost header = seq![LType::I64, LType::Ptr, LType::Ptr, LType::I64, LType::Ptr];
        assert(slots@ =~= header);
        let mut captures = lower_all(&c.envs[i]);
        slots.append(&mut captures);
        assert(slots@ =~= header + lowered(c.envs@[i as int]@));
        put_type(c, out, LType::Env(i));
        put(out, " = type { ");
        put_types_list(c, out, &slots);
        put(out, " }\n");
        i = i + 1;
    }
}

/// What `o` says, then every declared type.
pub open spec fn types_text(c: &EmitContext, o: Seq<char>) -> Seq<char> {
    let o = structs_text(c, o, c.structs@.len());
    let o = enums_text(c, o, c.enums@.len());
    let o = unions_text(c, o, c.unions@.len());
    let o = tuples_text(c, o, c.tuples@.len());
    envs_text(c, o, c.envs@.len())
}

/// Appends every declared type.
pub fn put_all_types(c: &EmitContext, out: &mut String)
    ensures
        final(out)@ == types_text(c, old(out)@),
{
    put_structs(c, out);
    put_enums(c, out);
    put_unions(c, out);
    put_tuples(c, out);
    put_envs(c, out);
}

/// What `o` says, then the address of a function or null.
pub open spec fn glue_text(c: &EmitContext, nm: Names, o: Seq<char>, glue: Option<usize>) -> Seq<char> {
    value_text(c, nm, o + ", i8* "@, glue_pointer(glue))
}

fn put_glue(c: &EmitContext, pl: &Place<'_>, out: &mut String, glue: Option<usize>)
    ensures
        final(out)@ == glue_text(c, pl@, old(out)@, glue),
{
    put(out, ", i8* ");
    put_value(c, pl, out, env_glue_ptr(glue));
}

/// What `o` says, then the static environments of the first `k` closure bodies: each
/// an immortal header.
pub open spec fn static_envs_text(c: &EmitContext, nm: Names, o: Seq<char>, k: nat) -> Seq<char>
    decreases k,
{
    if k == 0 {
        o
    } else {
        let n = (k - 1) as nat;
        let o = static_envs_text(c, nm, o, n);
        let site = c.closures@[n as int];
        let o = escaped(o + "@\""@, c.mangled(site.body))
            + ".$env$\" = private constant { i64, i8*, i8*, i64, i8* } { i64 "@ + decimal(
            RC_IMMORTAL as nat,
        );
        let o = glue_text(c, nm, glue_text(c, nm, o, site.drop_fn), site.copy_fn) + ", i64 "@
            + decimal(site.site_id as nat);
        glue_text(c, nm, o, site.eq_fn) + " }\n"@
    }
}

fn put_static_envs(c: &EmitContext, pl: &Place<'_>, out: &mut String)
    ensures
        final(out)@ == static_envs_text(c, pl@, old(out)@, c.closures@.len()),
{
    let mut i: usize = 0;
    while i < c.closures.len()
        invariant
            i <= c.closures@.len(),
            out@ == static_envs_text(c, pl@, old(out)@, i as nat),
        decreases c.closures@.len() - i,
    {
        let site = c.closures[i];
        put(out, "@\"");
        put_escaped(out, c.name_of(site.body));
        put(out, ".$env$\" = private constant { i64, i8*, i8*, i64, i8* } { i64 ");
        put_num(out, RC_IMMORTAL);
        put_glue(c, pl, out, site.drop_fn);
        put_glue(c, pl, out, site.copy_fn);
        put(out, ", i64 ");
        put_num(out, site.site_id);
        put_glue(c, pl, out, site.eq_fn);
        put(out, " }\n");
        i = i + 1;
    }
}

/// Every outside function.
pub open spec fn all_runtime() -> Seq<Rt> {
    seq![
        Rt::Malloc,
        Rt::Free,
        Rt::Memcpy,
        Rt::Memset,
        Rt::MemCompare,
        Rt::RcInc,
        Rt::RcDec,
        Rt::ClosureRcDec,
        Rt::ClosureDeepCopy,
        Rt::HeapDeepCopy,
        Rt::Panic,
        Rt::ConcatBits,
        Rt::StringEq,
        Rt::StringLength,
        Rt::StringGet,
        Rt::StringSlice,
        Rt::StringContainsNul,
        Rt::BinarySlice,
        Rt::Utf8Validate,
        Rt::FormatBool,
        Rt::FormatI64,
        Rt::FormatU64,
        Rt::FormatF32,
        Rt::FormatF64,
        Rt::IntParse,
        Rt::FloatParse,
        Rt::RtSelf,
        Rt::RtSend,
        Rt::RtSendAfter,
        Rt::RtSendLifecycle,
        Rt::RtKill,
        Rt::RtIsProcessAlive,
        Rt::RtCallToken,
        Rt::RtCallReceive,
        Rt::RtReply,
        Rt::RtSpawn,
        Rt::RtReceive,
        Rt::RtReceiveTimeout,
        Rt::RtSetPriority,
        Rt::RtYieldCheck,
        Rt::LastError,
        Rt::SocketResolve,
        Rt::SocketRecvFrom,
    ]
}

fn runtime_functions() -> (r: Vec<Rt>)
    ensures
        r@ == all_runtime(),
{
    let r: Vec<Rt> = vec![
        Rt::Malloc,
        Rt::Free,
        Rt::Memcpy,
        Rt::Memset,
        Rt::MemCompare,
        Rt::RcInc,
        Rt::RcDec,
        Rt::ClosureRcDec,
        Rt::ClosureDeepCopy,
        Rt::HeapDeepCopy,
        Rt::Panic,
        Rt::ConcatBits,
        Rt::StringEq,
        Rt::StringLength,
        Rt::StringGet,
        Rt::StringSlice,
        Rt::StringContainsNul,
        Rt::BinarySlice,
        Rt::Utf8Validate,
        Rt::FormatBool,
        Rt::FormatI64,
        Rt::FormatU64,
        Rt::FormatF32,
        Rt::FormatF64,
        Rt::IntParse,
        Rt::FloatParse,
        Rt::RtSelf,
        Rt::RtSend,
        Rt::RtSendAfter,
        Rt::RtSendLifecycle,
        Rt::RtKill,
        Rt::RtIsProcessAlive,
        Rt::RtCallToken,
        Rt::RtCallReceive,
        Rt::RtReply,
        Rt::RtSpawn,
        Rt::RtReceive,
        Rt::RtReceiveTimeout,
        Rt::RtSetPriority,
        Rt::RtYieldCheck,
        Rt::LastError,
        Rt::SocketResolve,
        Rt::SocketRecvFrom,
    ];
    assert(r@ =~= all_runtime());
    r
}

/// What `o` says, then the declarations of those of the first `k` outside
/// functions that the program does not declare itself.
pub open spec fn outside_text(c: &EmitContext, o: Seq<char>, all: Seq<Rt>, k: nat) -> Seq<char>
    decreases k,
{
    if k == 0 {
        o
    } else {
        let o = outside_text(c, o, all, (k - 1) as nat);
        let rt = all[k - 1];
        if first_linked(c.declared@, link_text(rt), 0) is Some {
            o
        } else {
            let o = type_text(c, o + "declare "@, rt_ret(rt)) + " @"@ + link_text(rt) + "("@;
            types_list_text(c, o, rt_sig(rt), rt_sig(rt).len()) + ")\n"@
        }
    }
}

fn put_outside(c: &EmitContext, out: &mut String)
    ensures
        final(out)@ == outside_text(c, old(out)@, all_runtime(), all_runtime().len()),
{
    let all = runtime_functions();
    let mut i: usize = 0;
    while i < all.len()
        invariant
            i <= all@.len(),
            out@ == outside_text(c, old(out)@, all@, i as nat),
        decreases all@.len() - i,
    {
        let rt = all[i];
        if find_linked(&c.declared, link_name(rt)).is_none() {
            put(out, "declare ");
            put_type(c, out, rt_return(rt));
            put(out, " @");
            put(out, link_name(rt));
            put(out, "(");
            let params = rt_params(rt);
            put_types_list(c, out, &params);
            put(out, ")\n");
        }
        i = i + 1;
    }
}

/// The bodies of some functions, mathematically.
pub open spec fn codes(bodies: Seq<Body>) -> Seq<Code> {
    Seq::new(bodies.len(), |i: int| bodies[i]@)
}

/// Some types, then those of the first `k` more that are not among them.
pub open spec fn joined(shims: Seq<IRType>, more: Seq<IRType>, k: nat) -> Seq<IRType>
    decreases k,
{
    if k == 0 {
        shims
    } else {
        let all = joined(shims, more, (k - 1) as nat);
        if all.contains(more[k - 1]) {
            all
        } else {
            all.push(more[k - 1])
        }
    }
}

/// The drop shims that the first `k` bodies ask for, each once.
pub open spec fn all_shims(bodies: Seq<Code>, k: nat) -> Seq<IRType>
    decreases k,
{
    if k == 0 {
        Seq::empty()
    } else {
        let more = bodies[k - 1].shims;
        joined(all_shims(bodies, (k - 1) as nat), more, more.len())
    }
}

fn listed(types: &Vec<IRType>, ty: IRType) -> (r: bool)
    ensures
        r == types@.contains(ty),
{
    let mut i: usize = 0;
    while i < types.len()
        invariant
            i <= types@.len(),
            forall|j: int| 0 <= j < i ==> types@[j] != ty,
        decreases types@.len() - i,
    {
        if types[i] == ty {
            assert(types@.contains(ty));
            return true;
        }
        i = i + 1;
    }
    false
}

fn gather_shims(bodies: &Vec<Body>) -> (r: Vec<IRType>)
    ensures
        r@ == all_shims(codes(bodies@), bodies@.len()),
{
    let mut shims: Vec<IRType> = Vec::new();
    assert(shims@ =~= Seq::empty());
    let mut i: usize = 0;
    while i < bodies.len()
        invariant
            i <= bodies@.len(),
            shims@ == all_shims(codes(bodies@), i as nat),
        decreases bodies@.len() - i,
    {
        let more = &bodies[i].shims;
        let ghost before = shims@;
        let mut j: usize = 0;
        while j < more.len()
            invariant
                j <= more@.len(),
                shims@ == joined(before, more@, j as nat),
            decreases more@.len() - j,
        {
            if !listed(&shims, more[j]) {
                shims.push(more[j]);
            }
            j = j + 1;
        }
        assert(codes(bodies@)[i as int].shims == more@);
        i = i + 1;
    }
    shims
}

/// What `o` says, then the string literals of the first `k` functions.
pub open spec fn all_literals_text(o: Seq<char>, bodies: Seq<Code>, k: nat) -> Seq<char>
    decreases k,
{
    if k == 0 {
        o
    } else {
        let texts = bodies[k - 1].texts;
        literals_text(
            all_literals_text(o, bodies, (k - 1) as nat),
            (k - 1) as nat,
            texts,
            texts.len(),
        )
    }
}

fn put_all_literals(out: &mut String, bodies: &Vec<Body>)
    ensures
        final(out)@ == all_literals_text(old(out)@, codes(bodies@), bodies@.len()),
{
    let mut i: usize = 0;
    while i < bodies.len()
        invariant
            i <= bodies@.len(),
            out@ == all_literals_text(old(out)@, codes(bodies@), i as nat),
        decreases bodies@.len() - i,
    {
        assert(codes(bodies@)[i as int].texts =~= literals(bodies@[i as int].texts@));
        put_literals(out, i, &bodies[i].texts);
        i = i + 1;
    }
}

/// What `o` says, then the first `k` functions. A name that is declared
/// twice stands once.
pub open spec fn functions_text(
    c: &EmitContext,
    o: Seq<char>,
    bodies: Seq<Code>,
    shims: Seq<IRType>,
    k: nat,
) -> Seq<char>
    decreases k,
{
    if k == 0 {
        o
    } else {
        let n = k - 1;
        let o = functions_text(c, o, bodies, shims, n as nat);
        let d = c.declared@[n];
        if first_linked(c.declared@, d.name@, 0) == Some(n) {
            let nm = Names {
                shims: shims,
                function: n as usize,
                labels: bodies[n].labels,
                texts: bodies[n].texts,
            };
            function_text(c, nm, o, d, bodies[n])
        } else {
            o
        }
    }
}

fn put_functions(c: &EmitContext, out: &mut String, bodies: &Vec<Body>, shims: &Vec<IRType>)
    requires
        bodies@.len() <= c.declared@.len(),
    ensures
        final(out)@ == functions_text(c, old(out)@, codes(bodies@), shims@, bodies@.len()),
{
    let mut i: usize = 0;
    while i < bodies.len()
        invariant
            i <= bodies@.len() <= c.declared@.len(),
            out@ == functions_text(c, old(out)@, codes(bodies@), shims@, i as nat),
        decreases bodies@.len() - i,
    {
        let d = &c.declared[i];
        match find_linked(&c.declared, d.name.as_str()) {
            Some(first) => if first == i {
                let pl = Place {
                    shims,
                    function: i,
                    labels: &bodies[i].labels,
                    texts: &bodies[i].texts,
                };
                assert(pl@.texts =~= codes(bodies@)[i as int].texts);
                put_function(c, &pl, out, d, &bodies[i]);
            },
            None => {},
        }
        i = i + 1;
    }
}

/// What `o` says, then the first `k` drop shims.
pub open spec fn shims_text(c: &EmitContext, o: Seq<char>, shims: Seq<IRType>, k: nat) -> Seq<char>
    decreases k,
{
    if k == 0 {
        o
    } else {
        let n = (k - 1) as nat;
        let code = release_in_slot_code(c, start(), shims[n as int], Val::Param(0)).i(Inst::RetVoid);
        let nm = Names { shims: shims, function: 0, labels: code.labels, texts: Seq::empty() };
        shim_text(c, nm, shims_text(c, o, shims, n), n, code)
    }
}

fn put_shims(c: &EmitContext, out: &mut String, shims: &Vec<IRType>)
    ensures
        final(out)@ == shims_text(c, old(out)@, shims@, shims@.len()),
{
    let none: Vec<Vec<u8>> = Vec::new();
    let mut i: usize = 0;
    while i < shims.len()
        invariant
            i <= shims@.len(),
            none@.len() == 0,
            out@ == shims_text(c, old(out)@, shims@, i as nat),
        decreases shims@.len() - i,
    {
        let mut body = Body::new();
        build_payload_drop_shim(c, &mut body, shims[i]);
        let pl = Place { shims, function: 0, labels: &body.labels, texts: &none };
        assert(pl@.texts =~= Seq::empty());
        put_shim(c, &pl, out, i, &body);
        i = i + 1;
    }
}

/// What `o` says, then the name of the application and the exit code.
pub open spec fn globals_text(o: Seq<char>, app_name: Seq<char>) -> Seq<char> {
    let o = o + "@__koja_app_name = constant { ["@ + decimal(encode_utf8(app_name).len())
        + " x i8], i8 } { ["@ + decimal(encode_utf8(app_name).len()) + " x i8] c\""@;
    escaped(o, app_name) + "\", i8 0 }\n@__koja_exit_code = global i32 0\n"@
}

fn put_globals(out: &mut String, app_name: &str)
    ensures
        final(out)@ == globals_text(old(out)@, app_name@),
{
    put(out, "@__koja_app_name = constant { [");
    put_usize(out, byte_length(app_name));
    put(out, " x i8], i8 } { [");
    put_usize(out, byte_length(app_name));
    put(out, " x i8] c\"");
    put_escaped(out, app_name);
    put(out, "\", i8 0 }\n@__koja_exit_code = global i32 0\n");
}

/// The checked arithmetic that emitted code calls.
pub open spec fn intrinsics_text() -> Seq<char> {
    "declare { i8, i1 } @llvm.sadd.with.overflow.i8(i8, i8)\n\
        declare { i16, i1 } @llvm.sadd.with.overflow.i16(i16, i16)\n\
        declare { i32, i1 } @llvm.sadd.with.overflow.i32(i32, i32)\n\
        declare { i64, i1 } @llvm.sadd.with.overflow.i64(i64, i64)\n\
        declare { i8, i1 } @llvm.ssub.with.overflow.i8(i8, i8)\n\
        declare { i16, i1 } @llvm.ssub.with.overflow.i16(i16, i16)\n\
        declare { i32, i1 } @llvm.ssub.with.overflow.i32(i32, i32)\n\
        declare { i64, i1 } @llvm.ssub.with.overflow.i64(i64, i64)\n\
        declare { i8, i1 } @llvm.smul.with.overflow.i8(i8, i8)\n\
        declare { i16, i1 } @llvm.smul.with.overflow.i16(i16, i16)\n\
        declare { i32, i1 } @llvm.smul.with.overflow.i32(i32, i32)\n\
        declare { i64, i1 } @llvm.smul.with.overflow.i64(i64, i64)\n\
        declare { i8, i1 } @llvm.uadd.with.overflow.i8(i8, i8)\n\
        declare { i16, i1 } @llvm.uadd.with.overflow.i16(i16, i16)\n\
        declare { i32, i1 } @llvm.uadd.with.overflow.i32(i32, i32)\n\
        declare { i64, i1 } @llvm.uadd.with.overflow.i64(i64, i64)\n\
        declare { i8, i1 } @llvm.usub.with.overflow.i8(i8, i8)\n\
        declare { i16, i1 } @llvm.usub.with.overflow.i16(i16, i16)\n\
        declare { i32, i1 } @llvm.usub.with.overflow.i32(i32, i32)\n\
        declare { i64, i1 } @llvm.usub.with.overflow.i64(i64, i64)\n\
        declare { i8, i1 } @llvm.umul.with.overflow.i8(i8, i8)\n\
        declare { i16, i1 } @llvm.umul.with.overflow.i16(i16, i16)\n\
        declare { i32, i1 } @llvm.umul.with.overflow.i32(i32, i32)\n\
        declare { i64, i1 } @llvm.umul.with.overflow.i64(i64, i64)\n\
        declare float @llvm.fabs.f32(float)\n\
        declare double @llvm.fabs.f64(double)\n"@
}

/// A module: its types, its globals, what it links against and its
/// functions.
#[verifier::opaque]
pub open spec fn module_text(c: &EmitContext, bodies: Seq<Code>, app_name: Seq<char>) -> Seq<char> {
    let shims = all_shims(bodies, bodies.len());
    let nm = Names { shims: shims, function: 0, labels: Seq::empty(), texts: Seq::empty() };
    let o = escaped("source_filename = \""@, app_name) + "\"\n"@;
    let o = types_text(c, o);
    let o = globals_text(o, app_name);
    let o = static_envs_text(c, nm, o, c.closures@.len());
    let o = all_literals_text(o, bodies, bodies.len());
    let o = outside_text(c, o, all_runtime(), all_runtime().len()) + intrinsics_text();
    let o = functions_text(c, o, bodies, shims, bodies.len());
    shims_text(c, o, shims, shims.len())
}

/// Prints a module.
pub fn print_module(c: &EmitContext, bodies: &Vec<Body>, app_name: &str) -> (r: String)
    requires
        bodies@.len() <= c.declared@.len(),
    ensures
        r@ == module_text(c, codes(bodies@), app_name@),
{
    proof {
        reveal(module_text);
    }
    let shims = gather_shims(bodies);
    let none: Vec<Vec<u8>> = Vec::new();
    let blocks: Vec<String> = Vec::new();
    let pl = Place { shims: &shims, function: 0, labels: &blocks, texts: &none };
    assert(pl@.texts =~= Seq::empty() && pl@.labels =~= Seq::empty());
    let mut text = "source_filename = \"".to_owned();
    put_escaped(&mut text, app_name);
    put(&mut text, "\"\n");
    put_all_types(c, &mut text);
    put_globals(&mut text, app_name);
    put_static_envs(c, &pl, &mut text);
    put_all_literals(&mut text, bodies);
    put_outside(c, &mut text);
    put(
        &mut text,
        "declare { i8, i1 } @llvm.sadd.with.overflow.i8(i8, i8)\n\
            declare { i16, i1 } @llvm.sadd.with.overflow.i16(i16, i16)\n\
            declare { i32, i1 } @llvm.sadd.with.overflow.i32(i32, i32)\n\
            declare { i64, i1 } @llvm.sadd.with.overflow.i64(i64, i64)\n\
            declare { i8, i1 } @llvm.ssub.with.overflow.i8(i8, i8)\n\
            declare { i16, i1 } @llvm.ssub.with.overflow.i16(i16, i16)\n\
            declare { i32, i1 } @llvm.ssub.with.overflow.i32(i32, i32)\n\
            declare { i64, i1 } @llvm.ssub.with.overflow.i64(i64, i64)\n\
            declare { i8, i1 } @llvm.smul.with.overflow.i8(i8, i8)\n\
            declare { i16, i1 } @llvm.smul.with.overflow.i16(i16, i16)\n\
            declare { i32, i1 } @llvm.smul.with.overflow.i32(i32, i32)\n\
            declare { i64, i1 } @llvm.smul.with.overflow.i64(i64, i64)\n\
            declare { i8, i1 } @llvm.uadd.with.overflow.i8(i8, i8)\n\
            declare { i16, i1 } @llvm.uadd.with.overflow.i16(i16, i16)\n\
            declare { i32, i1 } @llvm.uadd.with.overflow.i32(i32, i32)\n\
            declare { i64, i1 } @llvm.uadd.with.overflow.i64(i64, i64)\n\
            declare { i8, i1 } @llvm.usub.with.overflow.i8(i8, i8)\n\
            declare { i16, i1 } @llvm.usub.with.overflow.i16(i16, i16)\n\
            declare { i32, i1 } @llvm.usub.with.overflow.i32(i32, i32)\n\
            declare { i64, i1 } @llvm.usub.with.overflow.i64(i64, i64)\n\
            declare { i8, i1 } @llvm.umul.with.overflow.i8(i8, i8)\n\
            declare { i16, i1 } @llvm.umul.with.overflow.i16(i16, i16)\n\
            declare { i32, i1 } @llvm.umul.with.overflow.i32(i32, i32)\n\
            declare { i64, i1 } @llvm.umul.with.overflow.i64(i64, i64)\n\
            declare float @llvm.fabs.f32(float)\n\
            declare double @llvm.fabs.f64(double)\n",
    );
    put_functions(c, &mut text, bodies, &shims);
    put_shims(c, &mut text, &shims);
    text
}

} // verus!
