//! LLVM types in text form. Every pointer is an `i8*`; declared types
//! are named.

use vstd::prelude::*;
use crate::ctx::EmitContext;
use crate::ir::IRType;
use crate::llvm::LType;
use crate::text::{decimal, escaped, put, put_escaped, put_num, put_usize};
use crate::types::{value_basic_type, value_type};

verus! {

/// What `o` says, then a type that is no envelope.
pub open spec fn flat_type_text(c: &EmitContext, o: Seq<char>, ty: LType) -> Seq<char> {
    match ty {
        LType::Void => {
            let o = o + "void"@;
            o
        },
        LType::I1 => {
            let o = o + "i1"@;
            o
        },
        LType::I8 => {
            let o = o + "i8"@;
            o
        },
        LType::I16 => {
            let o = o + "i16"@;
            o
        },
        LType::I32 => {
            let o = o + "i32"@;
            o
        },
        LType::I64 => {
            let o = o + "i64"@;
            o
        },
        LType::F32 => {
            let o = o + "float"@;
            o
        },
        LType::F64 => {
            let o = o + "double"@;
            o
        },
        LType::Ptr => {
            let o = o + "i8*"@;
            o
        },
        LType::List => {
            let o = o + "{ i8*, i64, i64 }"@;
            o
        },
        LType::Table => {
            let o = o + "{ i8*, i8*, i64, i64 }"@;
            o
        },
        LType::Closure => {
            let o = o + "{ i8*, i8* }"@;
            o
        },
        LType::EnvHeader => {
            let o = o + "{ i64, i8*, i8*, i64, i8* }"@;
            o
        },
        LType::Words(n) => {
            let o = o + "["@;
            let o = o + decimal(n as nat);
            let o = o + " x i64]"@;
            o
        },
        LType::Struct(s) => {
            let o = o + "%\""@;
            let o = escaped(o, c.mangled(s));
            let o = o + "\""@;
            o
        },
        LType::Enum(s) => {
            let o = o + "%\""@;
            let o = escaped(o, c.mangled(s));
            let o = o + "\""@;
            o
        },
        LType::Variant(s, t) => {
            let o = o + "%\""@;
            let o = escaped(o, c.mangled(s));
            let o = o + ".tag"@;
            let o = o + decimal(t as nat);
            let o = o + "\""@;
            o
        },
        LType::Payload(s, t) => {
            let o = o + "%\""@;
            let o = escaped(o, c.mangled(s));
            let o = o + ".fields"@;
            let o = o + decimal(t as nat);
            let o = o + "\""@;
            o
        },
        LType::Union(u) => {
            let o = o + "%\""@;
            let o = escaped(o, c.mangled(c.union_symbol(u)));
            let o = o + "\""@;
            o
        },
        LType::Tuple(t) => {
            let o = o + "%tuple."@;
            let o = o + decimal(t as nat);
            o
        },
        LType::Env(e) => {
            let o = o + "%env."@;
            let o = o + decimal(e as nat);
            o
        },
        LType::Envelope(_) => {
            let o = o + "{ }"@;
            o
        },
    }
}

/// Appends a type that is no envelope.
fn put_flat_type(c: &EmitContext, out: &mut String, ty: LType)
    ensures
        final(out)@ == flat_type_text(c, old(out)@, ty),
{
    match ty {
        LType::Void => {
            put(out, "void");
        },
        LType::I1 => {
            put(out, "i1");
        },
        LType::I8 => {
            put(out, "i8");
        },
        LType::I16 => {
            put(out, "i16");
        },
        LType::I32 => {
            put(out, "i32");
        },
        LType::I64 => {
            put(out, "i64");
        },
        LType::F32 => {
            put(out, "float");
        },
        LType::F64 => {
            put(out, "double");
        },
        LType::Ptr => {
            put(out, "i8*");
        },
        LType::List => {
            put(out, "{ i8*, i64, i64 }");
        },
        LType::Table => {
            put(out, "{ i8*, i8*, i64, i64 }");
        },
        LType::Closure => {
            put(out, "{ i8*, i8* }");
        },
        LType::EnvHeader => {
            put(out, "{ i64, i8*, i8*, i64, i8* }");
        },
        LType::Words(n) => {
            put(out, "[");
            put_usize(out, n);
            put(out, " x i64]");
        },
        LType::Struct(s) => {
            put(out, "%\"");
            put_escaped(out, c.name_of(s));
            put(out, "\"");
        },
        LType::Enum(s) => {
            put(out, "%\"");
            put_escaped(out, c.name_of(s));
            put(out, "\"");
        },
        LType::Variant(s, t) => {
            put(out, "%\"");
            put_escaped(out, c.name_of(s));
            put(out, ".tag");
            put_num(out, (t) as u64);
            put(out, "\"");
        },
        LType::Payload(s, t) => {
            put(out, "%\"");
            put_escaped(out, c.name_of(s));
            put(out, ".fields");
            put_num(out, (t) as u64);
            put(out, "\"");
        },
        LType::Union(u) => {
            put(out, "%\"");
            put_escaped(out, c.name_of(c.symbol_of_union(u)));
            put(out, "\"");
        },
        LType::Tuple(t) => {
            put(out, "%tuple.");
            put_usize(out, t);
        },
        LType::Env(e) => {
            put(out, "%env.");
            put_usize(out, e);
        },
        LType::Envelope(_) => {
            put(out, "{ }");
        },
    }
}

/// What `o` says, then a type.
pub open spec fn type_text(c: &EmitContext, o: Seq<char>, ty: LType) -> Seq<char> {
    match ty {
        LType::Envelope(m) => {
            let o = o + "{ "@;
            let o = flat_type_text(c, o, value_type(m));
            let o = o + ", [3 x i64] }"@;
            o
        },
        _ => {
            let o = flat_type_text(c, o, ty);
            o
        },
    }
}

/// Appends a type.
pub fn put_type(c: &EmitContext, out: &mut String, ty: LType)
    ensures
        final(out)@ == type_text(c, old(out)@, ty),
{
    match ty {
        LType::Envelope(m) => {
            put(out, "{ ");
            put_flat_type(c, out, value_basic_type(m));
            put(out, ", [3 x i64] }");
        },
        _ => {
            put_flat_type(c, out, ty);
        },
    }
}

/// What `o` says, then the first `k` of some types, separated by commas.
pub open spec fn types_list_text(c: &EmitContext, o: Seq<char>, types: Seq<LType>, k: nat) -> Seq<char>
    decreases k,
{
    if k == 0 {
        o
    } else {
        let o = types_list_text(c, o, types, (k - 1) as nat);
        let o = if k > 1 {
            o + ", "@
        } else {
            o
        };
        type_text(c, o, types[k - 1])
    }
}

/// Appends some types, separated by commas.
pub fn put_types_list(c: &EmitContext, out: &mut String, types: &Vec<LType>)
    ensures
        final(out)@ == types_list_text(c, old(out)@, types@, types@.len()),
{
    let mut i: usize = 0;
    while i < types.len()
        invariant
            i <= types@.len(),
            out@ == types_list_text(c, old(out)@, types@, i as nat),
        decreases types@.len() - i,
    {
        if i > 0 {
            put(out, ", ");
        }
        put_type(c, out, types[i]);
        i = i + 1;
    }
}

/// What `o` says, then a function type.
pub open spec fn fn_type_text(c: &EmitContext, o: Seq<char>, params: Seq<LType>, ret: LType) -> Seq<char> {
    let o = type_text(c, o, ret);
    let o = o + " ("@;
    let o = types_list_text(c, o, params, params.len());
    let o = o + ")"@;
    o
}

/// Appends a function type.
pub fn put_fn_type(c: &EmitContext, out: &mut String, params: &Vec<LType>, ret: LType)
    ensures
        final(out)@ == fn_type_text(c, old(out)@, params@, ret),
{
    put_type(c, out, ret);
    put(out, " (");
    put_types_list(c, out, params);
    put(out, ")");
}

/// The type of a struct's field, `i8` where there is none.
pub open spec fn field_type(c: &EmitContext, ty: LType, field: usize) -> LType {
    match ty {
        LType::Closure => LType::Ptr,
        LType::List => if field == 0 {
            LType::Ptr
        } else {
            LType::I64
        },
        LType::Table => if field < 2 {
            LType::Ptr
        } else {
            LType::I64
        },
        LType::EnvHeader => header_type(field),
        LType::Env(env) => if field < 5 {
            header_type(field)
        } else {
            nth_type(c.captures(env), field - 5)
        },
        LType::Struct(s) => nth_type(c.fields(s), field as int),
        LType::Tuple(t) => nth_type(c.elements(t), field as int),
        LType::Payload(s, t) => nth_type(c.payload(s, t), field as int),
        LType::Variant(s, t) => if field == 2 {
            LType::Payload(s, t)
        } else {
            LType::I8
        },
        _ => LType::I8,
    }
}

/// The type of a header field of an environment.
pub open spec fn header_type(field: usize) -> LType {
    if field == 0 || field == 3 {
        LType::I64
    } else {
        LType::Ptr
    }
}

/// The LLVM type of one of some types, `i8` past their end.
pub open spec fn nth_type(types: Seq<IRType>, i: int) -> LType {
    if i < types.len() {
        value_type(types[i])
    } else {
        LType::I8
    }
}

fn header_field(field: usize) -> (r: LType)
    ensures
        r == header_type(field),
{
    if field == 0 || field == 3 {
        LType::I64
    } else {
        LType::Ptr
    }
}

/// The type of a struct's field.
pub fn type_of_field(c: &EmitContext, ty: LType, field: usize) -> (r: LType)
    ensures
        r == field_type(c, ty, field),
{
    match ty {
        LType::Closure => LType::Ptr,
        LType::List => if field == 0 {
            LType::Ptr
        } else {
            LType::I64
        },
        LType::Table => if field < 2 {
            LType::Ptr
        } else {
            LType::I64
        },
        LType::EnvHeader => header_field(field),
        LType::Env(env) => if field < 5 {
            header_field(field)
        } else if field - 5 < c.capture_len(env) {
            value_basic_type(c.capture_type(env, field - 5))
        } else {
            LType::I8
        },
        LType::Struct(s) => match c.find_struct(s) {
            Some(at) => if field < c.structs[at].fields.len() {
                value_basic_type(c.structs[at].fields[field].ir_type)
            } else {
                LType::I8
            },
            None => LType::I8,
        },
        LType::Tuple(t) => match c.tuple_element(t, field) {
            Some(element) => value_basic_type(element),
            None => LType::I8,
        },
        LType::Payload(s, t) => {
            let slots = c.enum_variant_payload(s, t);
            if field < slots.len() {
                value_basic_type(slots[field])
            } else {
                LType::I8
            }
        },
        LType::Variant(s, t) => if field == 2 {
            LType::Payload(s, t)
        } else {
            LType::I8
        },
        _ => LType::I8,
    }
}

} // verus!
